//! The tree walk and the reference model do the same: for a well-bracketed
//! program they go through the same cells and report the same events, move
//! for move.

use vstd::prelude::*;
use crate::brackets::{balanced_from, lemma_balanced_closes, lemma_inside_balanced, well_bracketed};
use crate::instruction::{Code, Node};
use crate::machine::{
    body_at, lemma_step_wf, lemma_supply_wf, next_of, valid_path, Applied, Machine,
};
use crate::opcode::OpCode;
use crate::parser::{
    closing, leaf_code, lemma_closing_bounds, matching_close, parse_from, parse_spec,
};
use crate::reference::Reference;

verus! {

/// The number of opcodes that one instruction stands for.
pub open spec fn span(node: Node) -> nat
    decreases node, 0nat,
{
    match node.code {
        Code::Loop(body) => 2 + spans_before(body, body.len()),
        _ => 1,
    }
}

/// The number of opcodes that the first `n` instructions stand for.
pub open spec fn spans_before(nodes: Seq<Node>, n: nat) -> nat
    decreases nodes, n,
{
    if n == 0 || n > nodes.len() {
        0
    } else {
        spans_before(nodes, (n - 1) as nat) + span(nodes[n - 1])
    }
}

/// The number of opcodes that a sequence of instructions stands for.
pub open spec fn spans(nodes: Seq<Node>) -> nat {
    spans_before(nodes, nodes.len())
}

/// The index of the first opcode of the body that `path` leads to.
pub open spec fn start_of(program: Seq<Node>, path: Seq<int>) -> int
    decreases path.len(),
{
    if path.len() == 0 {
        0
    } else {
        start_of(program, path.drop_last()) + spans_before(
            body_at(program, path.drop_last()),
            path.last() as nat,
        ) + 1
    }
}

/// The index of the opcode that the cursor stands at.
pub open spec fn pc_of(program: Seq<Node>, cursor: Seq<int>) -> int {
    start_of(program, cursor.drop_last()) + spans_before(
        body_at(program, cursor.drop_last()),
        cursor.last() as nat,
    )
}

/// The indices of the `[` of the loops that `path` leads through.
pub open spec fn opens(program: Seq<Node>, path: Seq<int>) -> Seq<int> {
    Seq::new(path.len(), |j: int| start_of(program, path.take(j + 1)) - 1)
}

/// The instructions stand for the opcodes of `ops` from index `base` on,
/// one after the other.
pub open spec fn covers(nodes: Seq<Node>, ops: Seq<(OpCode, usize)>, base: int) -> bool
    decreases nodes, 1nat,
{
    forall|i: int| #[trigger]
        indexes(nodes, i) ==> node_covers(nodes[i], ops, base + spans_before(nodes, i as nat))
}

/// `i` is the index of one of the instructions.
pub open spec fn indexes(nodes: Seq<Node>, i: int) -> bool {
    0 <= i < nodes.len()
}

/// The instruction stands for the opcodes of `ops` from index `at` on: a
/// leaf for its own opcode, a loop for a `[`, its body and the `]` that
/// matches the `[`.
pub open spec fn node_covers(node: Node, ops: Seq<(OpCode, usize)>, at: int) -> bool
    decreases node, 0nat,
{
    &&& 0 <= at < ops.len()
    &&& match node.code {
        Code::Error(_) => false,
        Code::Loop(body) => {
            &&& ops[at].0 == OpCode::LoopBegin
            &&& matching_close(ops, at) == at + 1 + spans(body)
            &&& matching_close(ops, at) < ops.len()
            &&& covers(body, ops, at + 1)
        },
        code => ops[at] == (code.opcode()->0, node.index),
    }
}

/// More instructions stand for more opcodes.
pub proof fn lemma_spans_grow(nodes: Seq<Node>, i: nat, j: nat)
    requires
        i <= j <= nodes.len(),
    ensures
        spans_before(nodes, i) + (j - i) <= spans_before(nodes, j),
    decreases j,
{
    if i < j {
        lemma_spans_grow(nodes, i, (j - 1) as nat);
        assert(span(nodes[j - 1]) >= 1);
    }
}

/// The opcodes of an instruction followed by more instructions are its own
/// and then theirs.
pub proof fn lemma_spans_prepend(node: Node, rest: Seq<Node>, n: nat)
    requires
        n <= rest.len(),
    ensures
        spans_before(seq![node] + rest, n + 1) == span(node) + spans_before(rest, n),
    decreases n,
{
    let all = seq![node] + rest;
    if n == 0 {
        assert(all[0] == node);
        assert(spans_before(all, 0) == 0);
    } else {
        lemma_spans_prepend(node, rest, (n - 1) as nat);
        assert(all[n as int] == rest[n - 1]);
    }
}

/// An instruction that stands for the opcodes at `base`, followed by
/// instructions that stand for the opcodes behind it, stands with them for
/// the opcodes from `base` on.
pub proof fn lemma_covers_prepend(node: Node, rest: Seq<Node>, ops: Seq<(OpCode, usize)>, base: int)
    requires
        node_covers(node, ops, base),
        covers(rest, ops, base + span(node)),
    ensures
        covers(seq![node] + rest, ops, base),
        spans(seq![node] + rest) == span(node) + spans(rest),
{
    let all = seq![node] + rest;
    lemma_spans_prepend(node, rest, rest.len());
    assert forall|i: int| #[trigger] indexes(all, i) implies node_covers(
        all[i],
        ops,
        base + spans_before(all, i as nat),
    ) by {
        if i == 0 {
            assert(spans_before(all, 0) == 0);
        } else {
            assert(all[i] == rest[i - 1]);
            assert(indexes(rest, i - 1));
            lemma_spans_prepend(node, rest, (i - 1) as nat);
        }
    }
}

/// A closing bracket that a scan finds in a part of the opcodes is the one
/// that the same scan finds in the whole.
pub proof fn lemma_closing_in_part(
    ops: Seq<(OpCode, usize)>,
    low: int,
    high: int,
    from: int,
    depth: nat,
)
    requires
        0 <= low <= high <= ops.len(),
        0 <= from <= high - low,
        closing(ops.subrange(low, high), from, depth) < high - low,
    ensures
        closing(ops, low + from, depth) == low + closing(ops.subrange(low, high), from, depth),
    decreases high - low - from,
{
    let part = ops.subrange(low, high);
    if from < high - low {
        assert(part[from] == ops[low + from]);
        match part[from].0 {
            OpCode::LoopBegin => lemma_closing_in_part(ops, low, high, from + 1, depth + 1),
            OpCode::LoopEnd => if depth > 1 {
                lemma_closing_in_part(ops, low, high, from + 1, (depth - 1) as nat)
            },
            _ => lemma_closing_in_part(ops, low, high, from + 1, depth),
        }
    }
}

/// An instruction that stands for opcodes of a part of `ops` stands for the
/// same opcodes in the whole.
pub proof fn lemma_node_covers_in_part(
    node: Node,
    ops: Seq<(OpCode, usize)>,
    low: int,
    high: int,
    at: int,
)
    requires
        0 <= low <= high <= ops.len(),
        node_covers(node, ops.subrange(low, high), at),
    ensures
        node_covers(node, ops, low + at),
    decreases node, 0nat,
{
    let part = ops.subrange(low, high);
    assert(part[at] == ops[low + at]);
    match node.code {
        Code::Loop(body) => {
            lemma_closing_in_part(ops, low, high, at + 1, 1);
            lemma_covers_in_part(body, ops, low, high, at + 1);
        },
        _ => {},
    }
}

/// Instructions that stand for opcodes of a part of `ops` stand for the same
/// opcodes in the whole.
pub proof fn lemma_covers_in_part(
    nodes: Seq<Node>,
    ops: Seq<(OpCode, usize)>,
    low: int,
    high: int,
    base: int,
)
    requires
        0 <= low <= high <= ops.len(),
        covers(nodes, ops.subrange(low, high), base),
    ensures
        covers(nodes, ops, low + base),
    decreases nodes, 1nat,
{
    assert forall|i: int| #[trigger] indexes(nodes, i) implies node_covers(
        nodes[i],
        ops,
        low + base + spans_before(nodes, i as nat),
    ) by {
        lemma_node_covers_in_part(nodes[i], ops, low, high, base + spans_before(nodes, i as nat));
    }
}

/// The tree that balanced opcodes parse to stands for exactly those opcodes.
pub proof fn lemma_parse_covers(ops: Seq<(OpCode, usize)>, from: int)
    requires
        0 <= from <= ops.len(),
        balanced_from(ops, from, 0),
    ensures
        covers(parse_from(ops, from), ops, from),
        spans(parse_from(ops, from)) == ops.len() - from,
    decreases ops.len(), ops.len() - from,
{
    if from < ops.len() {
        let (op, position) = ops[from];
        match op {
            OpCode::LoopEnd => {},
            OpCode::LoopBegin => {
                let close = matching_close(ops, from);
                lemma_balanced_closes(ops, from + 1, 1);
                lemma_inside_balanced(ops, from + 1, from + 1, 1);
                let inner = ops.subrange(from + 1, close);
                let body = parse_from(inner, 0);
                let node = Node { index: ops[close].1, code: Code::Loop(body) };
                let rest = parse_from(ops, close + 1);
                lemma_parse_covers(inner, 0);
                lemma_parse_covers(ops, close + 1);
                lemma_covers_in_part(body, ops, from + 1, close, 0);
                assert(span(node) == 2 + spans(body));
                assert(node_covers(node, ops, from));
                lemma_covers_prepend(node, rest, ops, from);
            },
            _ => {
                let node = Node { index: position, code: leaf_code(op) };
                let rest = parse_from(ops, from + 1);
                lemma_parse_covers(ops, from + 1);
                assert(span(node) == 1);
                assert(node_covers(node, ops, from));
                lemma_covers_prepend(node, rest, ops, from);
            },
        }
    } else {
        assert(spans_before(parse_from(ops, from), 0) == 0);
    }
}

/// The body that a valid path leads to stands for the opcodes from its
/// start on, and the loop that holds it for the `[` just before them.
pub proof fn lemma_covers_at(program: Seq<Node>, ops: Seq<(OpCode, usize)>, path: Seq<int>)
    requires
        covers(program, ops, 0),
        valid_path(program, path),
    ensures
        start_of(program, path) >= 0,
        covers(body_at(program, path), ops, start_of(program, path)),
        path.len() > 0 ==> {
            let node = body_at(program, path.drop_last())[path.last()];
            &&& node.code == Code::Loop(body_at(program, path))
            &&& node_covers(node, ops, start_of(program, path) - 1)
        },
    decreases path.len(),
{
    if path.len() > 0 {
        lemma_covers_at(program, ops, path.drop_last());
        let outer = body_at(program, path.drop_last());
        assert(indexes(outer, path.last()));
    }
}

/// The cursor stands behind the program exactly when its opcode index
/// stands behind the opcodes.
pub proof fn lemma_end_agrees(program: Seq<Node>, ops: Seq<(OpCode, usize)>, cursor: Seq<int>)
    requires
        covers(program, ops, 0),
        spans(program) == ops.len(),
        cursor.len() >= 1,
        valid_path(program, cursor.drop_last()),
        0 <= cursor.last() <= body_at(program, cursor.drop_last()).len(),
    ensures
        0 <= pc_of(program, cursor) <= ops.len(),
        (cursor.len() == 1 && cursor[0] >= program.len()) <==> pc_of(program, cursor)
            >= ops.len(),
{
    let path = cursor.drop_last();
    let body = body_at(program, path);
    lemma_covers_at(program, ops, path);
    lemma_spans_grow(body, cursor.last() as nat, body.len());
    if cursor.len() == 1 {
        assert(path =~= Seq::<int>::empty());
        assert(cursor[0] == cursor.last());
    } else {
        assert(path.len() > 0);
    }
}

/// The tree walk and the reference model are at the same place of the same
/// program with the same cells.
pub open spec fn related(m: Machine, r: Reference) -> bool {
    &&& m.wf()
    &&& covers(m.program, r.ops, 0)
    &&& spans(m.program) == r.ops.len()
    &&& r.cells == m.cells
    &&& r.status == m.status
    &&& r.pc == pc_of(m.program, m.cursor)
    &&& r.loops == opens(m.program, m.path())
}

/// Moving both to places that correspond keeps the two related.
proof fn lemma_jump_related(m: Machine, r: Reference, cursor: Seq<int>, pc: int, loops: Seq<int>)
    requires
        related(m, r),
        m.jump(cursor).wf(),
        pc == pc_of(m.program, cursor),
        loops == opens(m.program, cursor.drop_last()),
    ensures
        related(m.jump(cursor), r.jump(pc, loops)),
{
    lemma_end_agrees(m.program, r.ops, cursor);
}

/// A step of the one is a step of the other.
pub proof fn lemma_step_related(m: Machine, r: Reference)
    requires
        related(m, r),
    ensures
        related(m.step().0, r.step().0),
        m.step().1 == r.step().1,
{
    lemma_step_wf(m);
    if m.status is Running {
        let program = m.program;
        let ops = r.ops;
        let path = m.path();
        let body = m.body();
        let i = m.cursor.last();
        let base = start_of(program, path);
        lemma_covers_at(program, ops, path);
        lemma_end_agrees(program, ops, m.cursor);
        if m.at_body_end() {
            assert(path.len() > 0) by {
                if path.len() == 0 {
                    assert(m.cursor.len() == 1);
                    assert(m.cursor[0] == m.cursor.last());
                }
            }
            let at = base - 1;
            lemma_closing_bounds(ops, at + 1, 1);
            assert(path.take(path.len() as int) =~= path);
            assert(r.loops.last() == at);
            if m.cells.current() != 0 {
                let cursor = path.push(0);
                assert(cursor.drop_last() =~= path);
                lemma_jump_related(m, r, cursor, base, r.loops);
            } else {
                let cursor = next_of(path);
                assert(cursor.drop_last() =~= path.drop_last());
                let outer_loops = opens(program, path.drop_last());
                assert(outer_loops =~= r.loops.drop_last()) by {
                    assert forall|j: int| 0 <= j < outer_loops.len() implies outer_loops[j]
                        == r.loops[j] by {
                        assert(path.drop_last().take(j + 1) =~= path.take(j + 1));
                    }
                }
                let outer = body_at(program, path.drop_last());
                assert(span(outer[path.last()]) == 2 + spans(body));
                lemma_jump_related(m, r, cursor, r.pc + 1, r.loops.drop_last());
            }
        } else {
            let node = m.current();
            assert(indexes(body, i));
            match node.code {
                Code::Loop(inner) => {
                    if m.cells.current() != 0 {
                        let cursor = m.cursor.push(0);
                        assert(cursor.drop_last() =~= m.cursor);
                        let inner_loops = opens(program, m.cursor);
                        assert(inner_loops =~= r.loops.push(r.pc)) by {
                            assert forall|j: int| 0 <= j < path.len() implies inner_loops[j]
                                == r.loops[j] by {
                                assert(m.cursor.take(j + 1) =~= path.take(j + 1));
                            }
                            assert(m.cursor.take(m.cursor.len() as int) =~= m.cursor);
                        }
                        lemma_jump_related(m, r, cursor, r.pc + 1, r.loops.push(r.pc));
                    } else {
                        let cursor = next_of(m.cursor);
                        assert(cursor.drop_last() =~= path);
                        assert(span(node) == 2 + spans(inner));
                        lemma_jump_related(
                            m,
                            r,
                            cursor,
                            matching_close(ops, r.pc) + 1,
                            r.loops,
                        );
                    }
                },
                Code::Error(_) => {},
                _ => {
                    let applied = m.cells.apply(node.code.opcode()->0, node.index);
                    lemma_settle_related(m, r, applied);
                },
            }
        }
    }
}

/// Settling after the same instruction keeps the two related.
proof fn lemma_settle_related(m: Machine, r: Reference, applied: Applied)
    requires
        related(m, r),
        !m.at_body_end(),
        m.current().code.opcode() is Some,
        m.settle(applied).0.wf(),
    ensures
        related(m.settle(applied).0, r.settle(applied).0),
        m.settle(applied).1 == r.settle(applied).1,
{
    if applied.next is Advance {
        let held = Machine { cells: applied.cells, ..m };
        let kept = Reference { cells: applied.cells, ..r };
        let cursor = next_of(m.cursor);
        assert(cursor.drop_last() =~= m.path());
        assert(span(m.current()) == 1);
        lemma_end_agrees(m.program, r.ops, cursor);
    }
}

/// Taking the same input value keeps the two related.
pub proof fn lemma_supply_related(m: Machine, r: Reference, value: i16)
    requires
        related(m, r),
    ensures
        related(m.supply(value).0, r.supply(value).0),
        m.supply(value).1 == r.supply(value).1,
{
    lemma_supply_wf(m, value);
    if m.status is AwaitingInput {
        lemma_covers_at(m.program, r.ops, m.path());
        assert(indexes(m.body(), m.cursor.last()));
        lemma_settle_related(m, r, m.cells.store(value, m.current().index));
    }
}

/// Related runs stay related, take the same inputs and report the same
/// events.
pub proof fn lemma_run_related(m: Machine, r: Reference, inputs: Seq<i16>, moves: nat)
    requires
        related(m, r),
    ensures
        related(m.run(inputs, moves).machine, r.run(inputs, moves).machine),
        m.run(inputs, moves).taken == r.run(inputs, moves).taken,
        m.run(inputs, moves).trace == r.run(inputs, moves).trace,
    decreases moves,
{
    if moves > 0 {
        lemma_run_related(m, r, inputs, (moves - 1) as nat);
        let a = m.run(inputs, (moves - 1) as nat);
        let b = r.run(inputs, (moves - 1) as nat);
        if !a.settled(inputs) {
            if a.machine.status is Running {
                lemma_step_related(a.machine, b.machine);
            } else {
                lemma_supply_related(a.machine, b.machine, inputs[a.taken as int]);
            }
        }
    }
}

/// Running a well-bracketed program as a tree is running its opcodes on the
/// reference model.
///
/// After any number of moves, on any input values, the tree walk of the
/// parsed program and the reference model of the opcodes have reported the
/// same events in the same order, hold the same tape and pointer, stand in
/// the same status and have taken the same number of input values.
pub proof fn lemma_tree_walk_matches_reference(
    ops: Seq<(OpCode, usize)>,
    inputs: Seq<i16>,
    moves: nat,
)
    requires
        well_bracketed(ops),
    ensures
        ({
            let walk = Machine::start(parse_spec(ops)).run(inputs, moves);
            let model = Reference::start(ops).run(inputs, moves);
            &&& walk.trace == model.trace
            &&& walk.machine.cells == model.machine.cells
            &&& walk.machine.status == model.machine.status
            &&& walk.taken == model.taken
        }),
{
    let program = parse_spec(ops);
    let m = Machine::start(program);
    let r = Reference::start(ops);
    lemma_parse_covers(ops, 0);
    assert(m.path() =~= Seq::<int>::empty());
    assert(opens(program, m.path()) =~= Seq::<int>::empty());
    assert(m.cursor.last() == 0);
    lemma_spans_grow(program, 0, program.len());
    assert(related(m, r));
    lemma_run_related(m, r, inputs, moves);
}

} // verus!
