//! From source text to opcodes.

use vstd::prelude::*;
use vstd::string::StrSliceExecFns;
use crate::opcode::OpCode;

verus! {

/// The opcodes among the first `n` characters of `source`, each with the
/// offset of its character, in the order of the text.
pub open spec fn lex_prefix(source: Seq<char>, n: nat) -> Seq<(OpCode, usize)>
    decreases n,
{
    if n == 0 {
        Seq::empty()
    } else {
        let before = lex_prefix(source, (n - 1) as nat);
        match OpCode::of_char(source[n - 1]) {
            Some(op) => before.push((op, (n - 1) as usize)),
            None => before,
        }
    }
}

/// The opcodes of a whole source text.
pub open spec fn lex_spec(source: Seq<char>) -> Seq<(OpCode, usize)> {
    lex_prefix(source, source.len())
}

/// What `lex_prefix` yields: no more tokens than characters, each token the
/// opcode of the character at its offset, offsets strictly increasing, and no
/// opcode character left out.
pub proof fn lemma_lex_prefix(source: Seq<char>, n: nat)
    requires
        n <= source.len() <= usize::MAX,
    ensures
        lex_prefix(source, n).len() <= n,
        forall|k: int|
            0 <= k < lex_prefix(source, n).len() ==> {
                let (op, pos) = #[trigger] lex_prefix(source, n)[k];
                pos < n && OpCode::of_char(source[pos as int]) == Some(op)
            },
        forall|j: int, k: int|
            0 <= j < k < lex_prefix(source, n).len() ==> (#[trigger] lex_prefix(source, n)[j]).1
                < (#[trigger] lex_prefix(source, n)[k]).1,
        forall|i: int|
            0 <= i < n && OpCode::of_char(source[i]) is Some ==> exists|k: int|
                0 <= k < lex_prefix(source, n).len() && (#[trigger] lex_prefix(source, n)[k]).1
                    == i,
    decreases n,
{
    if n > 0 {
        let m = (n - 1) as nat;
        lemma_lex_prefix(source, m);
        let before = lex_prefix(source, m);
        let now = lex_prefix(source, n);
        assert forall|i: int| 0 <= i < n && OpCode::of_char(source[i]) is Some implies exists|
            k: int,
        |
            0 <= k < now.len() && (#[trigger] now[k]).1 == i by {
            if i < m {
                let k = choose|k: int| 0 <= k < before.len() && (#[trigger] before[k]).1 == i;
                assert(now[k] == before[k]);
            } else {
                assert(now[now.len() - 1].1 == i);
            }
        }
    }
}

/// Turns source text into opcodes.
///
/// Each of the eight opcode characters yields one token, which carries the
/// character's offset in `source`, counted in characters from 0; every other
/// character is a comment and yields nothing.
pub fn lex(source: String) -> (tokens: Vec<(OpCode, usize)>)
    ensures
        tokens@ == lex_spec(source@),
        tokens@.len() <= source@.len(),
        forall|k: int|
            0 <= k < tokens@.len() ==> {
                let (op, pos) = #[trigger] tokens@[k];
                pos < source@.len() && OpCode::of_char(source@[pos as int]) == Some(op)
            },
        forall|j: int, k: int|
            0 <= j < k < tokens@.len() ==> (#[trigger] tokens@[j]).1 < (#[trigger] tokens@[k]).1,
        forall|i: int|
            0 <= i < source@.len() && OpCode::of_char(source@[i]) is Some ==> exists|k: int|
                0 <= k < tokens@.len() && (#[trigger] tokens@[k]).1 == i,
{
    let text = source.as_str();
    let n: usize = text.unicode_len();
    let mut tokens: Vec<(OpCode, usize)> = Vec::new();
    let mut cnt: usize = 0;
    for symbol in it: text.chars()
        invariant
            n == source@.len(),
            text@ == source@,
            cnt == it.index(),
            it.seq() == source@,
            tokens@ == lex_prefix(source@, cnt as nat),
    {
        match OpCode::from_char(symbol) {
            Some(op) => tokens.push((op, cnt)),
            None => (),
        }
        cnt += 1;
    }
    proof {
        lemma_lex_prefix(source@, source@.len());
    }
    tokens
}

} // verus!
