//! Well-bracketed programs, and what parsing makes of them.

use vstd::prelude::*;
use crate::instruction::{Code, Node};
use crate::opcode::OpCode;
use crate::parser::{
    closing, leaf_code, lemma_closing_bounds, matching_close, parse_from, parse_spec,
};

verus! {

/// From index `from` on, with `depth` loops open, every `]` closes a loop
/// that is open and no loop is left open at the end.
pub open spec fn balanced_from(ops: Seq<(OpCode, usize)>, from: int, depth: nat) -> bool
    decreases ops.len() - from,
{
    if from < 0 || from >= ops.len() {
        depth == 0
    } else {
        match ops[from].0 {
            OpCode::LoopBegin => balanced_from(ops, from + 1, depth + 1),
            OpCode::LoopEnd => depth > 0 && balanced_from(ops, from + 1, (depth - 1) as nat),
            _ => balanced_from(ops, from + 1, depth),
        }
    }
}

/// Every `[` has its `]` behind it and every `]` its `[` before it.
pub open spec fn well_bracketed(ops: Seq<(OpCode, usize)>) -> bool {
    balanced_from(ops, 0, 0)
}

/// No instruction of the tree, at any depth, is an error.
pub open spec fn malformed_free(nodes: Seq<Node>) -> bool
    decreases nodes, 1nat,
{
    forall|i: int| 0 <= i < nodes.len() ==> sound(#[trigger] nodes[i])
}

/// The instruction is no error and, if it is a loop, holds none.
pub open spec fn sound(node: Node) -> bool
    decreases node, 0nat,
{
    match node.code {
        Code::Error(_) => false,
        Code::Loop(body) => malformed_free(body),
        _ => true,
    }
}

/// The leaf instructions among the first `n` instructions and in their
/// loops, each as its opcode with its source offset, in the order of the
/// program.
pub open spec fn leaves_before(nodes: Seq<Node>, n: nat) -> Seq<(OpCode, usize)>
    decreases nodes, n,
{
    if n == 0 || n > nodes.len() {
        Seq::empty()
    } else {
        let node = nodes[n - 1];
        leaves_before(nodes, (n - 1) as nat) + match node.code {
            Code::Loop(body) => leaves_before(body, body.len()),
            Code::Error(_) => Seq::empty(),
            code => seq![(code.opcode()->0, node.index)],
        }
    }
}

/// The leaf instructions of a tree, in the order of the program.
pub open spec fn leaf_tokens(nodes: Seq<Node>) -> Seq<(OpCode, usize)> {
    leaves_before(nodes, nodes.len())
}

/// The opcodes from index `from` on that are no brackets, in their order.
pub open spec fn plain_from(ops: Seq<(OpCode, usize)>, from: int) -> Seq<(OpCode, usize)>
    decreases ops.len() - from,
{
    if from < 0 || from >= ops.len() {
        Seq::empty()
    } else if ops[from].0.is_bracket() {
        plain_from(ops, from + 1)
    } else {
        seq![ops[from]] + plain_from(ops, from + 1)
    }
}

/// The opcodes that are no brackets, in their order.
pub open spec fn plain_tokens(ops: Seq<(OpCode, usize)>) -> Seq<(OpCode, usize)> {
    plain_from(ops, 0)
}

/// The opcodes of a sequence of tokens, without their offsets.
pub open spec fn kinds(tokens: Seq<(OpCode, usize)>) -> Seq<OpCode> {
    tokens.map_values(|token: (OpCode, usize)| token.0)
}

/// When a scan finds the closing bracket, the opcodes that it passed are
/// balanced among themselves.
pub proof fn lemma_inside_balanced(ops: Seq<(OpCode, usize)>, low: int, from: int, depth: nat)
    requires
        0 <= low <= from <= ops.len(),
        depth >= 1,
        closing(ops, from, depth) < ops.len(),
    ensures
        balanced_from(
            ops.subrange(low, closing(ops, from, depth)),
            from - low,
            (depth - 1) as nat,
        ),
    decreases ops.len() - from,
{
    let close = closing(ops, from, depth);
    lemma_closing_bounds(ops, from, depth);
    let inner = ops.subrange(low, close);
    if from < close {
        assert(inner[from - low] == ops[from]);
        match ops[from].0 {
            OpCode::LoopBegin => lemma_inside_balanced(ops, low, from + 1, depth + 1),
            OpCode::LoopEnd => lemma_inside_balanced(ops, low, from + 1, (depth - 1) as nat),
            _ => lemma_inside_balanced(ops, low, from + 1, depth),
        }
    } else {
        lemma_closing_bounds(ops, from + 1, depth + 1);
        lemma_closing_bounds(ops, from + 1, depth);
        lemma_closing_bounds(ops, from + 1, (depth - 1) as nat);
    }
}

/// In balanced opcodes the scan for a closing bracket finds one, and what
/// stands behind it is balanced.
pub proof fn lemma_balanced_closes(ops: Seq<(OpCode, usize)>, from: int, depth: nat)
    requires
        0 <= from <= ops.len(),
        depth >= 1,
        balanced_from(ops, from, depth),
    ensures
        from <= closing(ops, from, depth) < ops.len(),
        balanced_from(ops, closing(ops, from, depth) + 1, 0),
    decreases ops.len() - from,
{
    if from < ops.len() {
        match ops[from].0 {
            OpCode::LoopBegin => lemma_balanced_closes(ops, from + 1, depth + 1),
            OpCode::LoopEnd => if depth > 1 {
                lemma_balanced_closes(ops, from + 1, (depth - 1) as nat)
            },
            _ => lemma_balanced_closes(ops, from + 1, depth),
        }
    }
}

/// The plain opcodes of a part of the sequence are those of the whole in
/// that part.
pub proof fn lemma_plain_part(ops: Seq<(OpCode, usize)>, low: int, high: int, from: int)
    requires
        0 <= low <= from <= high <= ops.len(),
        high < ops.len() ==> ops[high].0.is_bracket(),
    ensures
        plain_from(ops, from) == plain_from(ops.subrange(low, high), from - low) + plain_from(
            ops,
            high + 1,
        ),
    decreases high - from,
{
    let part = ops.subrange(low, high);
    if from < high {
        lemma_plain_part(ops, low, high, from + 1);
        assert(part[from - low] == ops[from]);
        if !ops[from].0.is_bracket() {
            assert(seq![ops[from]] + (plain_from(part, from + 1 - low) + plain_from(
                ops,
                high + 1,
            )) =~= (seq![ops[from]] + plain_from(part, from + 1 - low)) + plain_from(
                ops,
                high + 1,
            ));
        }
    } else {
        assert(plain_from(part, from - low) =~= Seq::<(OpCode, usize)>::empty());
        assert(Seq::<(OpCode, usize)>::empty() + plain_from(ops, high + 1) =~= plain_from(
            ops,
            high + 1,
        ));
    }
}

/// The leaves of an instruction followed by more instructions are its own
/// leaves followed by theirs.
pub proof fn lemma_leaves_prepend(node: Node, rest: Seq<Node>, n: nat)
    requires
        n <= rest.len(),
    ensures
        leaves_before(seq![node] + rest, n + 1) == leaves_before(seq![node], 1) + leaves_before(
            rest,
            n,
        ),
    decreases n,
{
    let all = seq![node] + rest;
    if n == 0 {
        assert(leaves_before(all, 0) =~= leaves_before(seq![node], 0));
        assert(all[0] == seq![node][0]);
        assert(leaves_before(seq![node], 1) + leaves_before(rest, 0) =~= leaves_before(
            seq![node],
            1,
        ));
    } else {
        lemma_leaves_prepend(node, rest, (n - 1) as nat);
        assert(all[n as int] == rest[n - 1]);
        let last = match rest[n - 1].code {
            Code::Loop(body) => leaves_before(body, body.len()),
            Code::Error(_) => Seq::empty(),
            code => seq![(code.opcode()->0, rest[n - 1].index)],
        };
        assert((leaves_before(seq![node], 1) + leaves_before(rest, (n - 1) as nat)) + last =~= 
            leaves_before(seq![node], 1) + (leaves_before(rest, (n - 1) as nat) + last));
    }
}

/// Parsing balanced opcodes yields no error instruction, and the leaves of
/// the tree are the opcodes that are no brackets, each with its own offset.
pub proof fn lemma_parse_balanced(ops: Seq<(OpCode, usize)>, from: int)
    requires
        0 <= from <= ops.len(),
        balanced_from(ops, from, 0),
    ensures
        malformed_free(parse_from(ops, from)),
        leaf_tokens(parse_from(ops, from)) == plain_from(ops, from),
    decreases ops.len(), ops.len() - from,
{
    if from < ops.len() {
        let (op, position) = ops[from];
        match op {
            OpCode::LoopEnd => {},
            OpCode::LoopBegin => {
                let close = matching_close(ops, from);
                lemma_balanced_closes(ops, from + 1, 1);
                lemma_inside_balanced(ops, from + 1, from + 1, 1);
                let inner = ops.subrange(from + 1, close);
                let body = parse_from(inner, 0);
                let node = Node { index: ops[close].1, code: Code::Loop(body) };
                let rest = parse_from(ops, close + 1);
                lemma_parse_balanced(inner, 0);
                lemma_parse_balanced(ops, close + 1);
                let all = seq![node] + rest;
                assert forall|i: int| 0 <= i < all.len() implies sound(#[trigger] all[i]) by {
                    if i > 0 {
                        assert(all[i] == rest[i - 1]);
                    }
                }
                lemma_leaves_prepend(node, rest, rest.len());
                assert(leaves_before(seq![node], 1) =~= leaf_tokens(body)) by {
                    assert(leaves_before(seq![node], 0) =~= Seq::<(OpCode, usize)>::empty());
                }
                lemma_closing_bounds(ops, from + 1, 1);
                lemma_plain_part(ops, from + 1, close, from + 1);
            },
            _ => {
                let node = Node { index: position, code: leaf_code(op) };
                let rest = parse_from(ops, from + 1);
                lemma_parse_balanced(ops, from + 1);
                let all = seq![node] + rest;
                assert forall|i: int| 0 <= i < all.len() implies sound(#[trigger] all[i]) by {
                    if i > 0 {
                        assert(all[i] == rest[i - 1]);
                    }
                }
                lemma_leaves_prepend(node, rest, rest.len());
                assert(leaves_before(seq![node], 1) =~= seq![(op, position)]) by {
                    assert(leaves_before(seq![node], 0) =~= Seq::<(OpCode, usize)>::empty());
                }
            },
        }
    }
}

/// The instruction holds no error instruction below itself.
pub open spec fn sound_inside(node: Node) -> bool {
    match node.code {
        Code::Loop(body) => malformed_free(body),
        _ => true,
    }
}

/// Whatever the opcodes, the parser puts error instructions at the top
/// level only: the body of every loop that it builds is free of them.
pub proof fn lemma_errors_at_top_level(ops: Seq<(OpCode, usize)>, from: int)
    requires
        0 <= from <= ops.len(),
    ensures
        forall|i: int|
            0 <= i < parse_from(ops, from).len() ==> sound_inside(
                #[trigger] parse_from(ops, from)[i],
            ),
    decreases ops.len() - from,
{
    if from < ops.len() {
        let (op, position) = ops[from];
        let nodes = parse_from(ops, from);
        match op {
            OpCode::LoopBegin => {
                let close = matching_close(ops, from);
                if from < close < ops.len() {
                    lemma_inside_balanced(ops, from + 1, from + 1, 1);
                    lemma_parse_balanced(ops.subrange(from + 1, close), 0);
                    lemma_errors_at_top_level(ops, close + 1);
                    let rest = parse_from(ops, close + 1);
                    assert forall|i: int| 0 <= i < nodes.len() implies sound_inside(
                        #[trigger] nodes[i],
                    ) by {
                        if i > 0 {
                            assert(nodes[i] == rest[i - 1]);
                        }
                    }
                }
            },
            _ => {
                lemma_errors_at_top_level(ops, from + 1);
                let rest = parse_from(ops, from + 1);
                assert forall|i: int| 0 <= i < nodes.len() implies sound_inside(
                    #[trigger] nodes[i],
                ) by {
                    if i > 0 {
                        assert(nodes[i] == rest[i - 1]);
                    }
                }
            },
        }
    }
}

/// For well-bracketed opcodes the parser builds a tree without error
/// instructions whose leaves are exactly the opcodes that are no brackets:
/// the same opcodes with the same offsets in the same order, and so the same
/// multiset of kinds.
pub proof fn lemma_parse_well_bracketed(ops: Seq<(OpCode, usize)>)
    requires
        well_bracketed(ops),
    ensures
        malformed_free(parse_spec(ops)),
        leaf_tokens(parse_spec(ops)) == plain_tokens(ops),
        kinds(leaf_tokens(parse_spec(ops))).to_multiset() == kinds(plain_tokens(ops)).to_multiset(),
{
    lemma_parse_balanced(ops, 0);
}

} // verus!
