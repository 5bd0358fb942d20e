//! Laws of selections: the search goes to the pair whose term the value is.

use vstd::prelude::*;
use crate::loader::decode::compact::OperandView;
use super::common::read_operand_term_ir;
use super::guards::{lower_select_val_ir, select_search_ir, sorted_pairs, with_pair, SelectPair};
use super::ir::{Block, IntCc, IrOp, LoweringView, Value};
use super::meaning::{does, lemma_emit, lemma_switch, only_made_values, operand_value, Flow, Machine};
use super::meaning_core::lemma_read;

verus! {

/// A word without sign.
pub open spec fn unsigned(word: i64) -> int {
    if word < 0 {
        word + 0x1_0000_0000_0000_0000
    } else {
        word as int
    }
}

proof fn lemma_unsigned(candidate: u64)
    ensures
        unsigned(candidate as i64) == candidate,
{
    let word = candidate as i64;
    assert((word < 0 ==> word + 0x1_0000_0000_0000_0000 == candidate) && (word >= 0 ==> word
        == candidate)) by (bit_vector)
        requires
            word == candidate as i64,
    ;
}

/// Whether pairs are in the order of their terms.
pub open spec fn pairs_in_order(pairs: Seq<SelectPair>) -> bool {
    forall|i: int, j: int|
        0 <= i < j < pairs.len() ==> pairs[i].candidate_raw <= pairs[j].candidate_raw
}

/// Whether a block is where a selection goes: to the target of a pair whose term
/// the value is, or to `fail` when there is none.
pub open spec fn selected(pairs: Seq<SelectPair>, value: i64, fail: Block, block: Block) -> bool {
    ||| exists|i: int|
        0 <= i < pairs.len() && (#[trigger] pairs[i]).candidate_raw == unsigned(value)
            && pairs[i].target == block
    ||| block == fail && forall|i: int|
        0 <= i < pairs.len() ==> (#[trigger] pairs[i]).candidate_raw != unsigned(value)
}

/// Whether every pair goes to a block that was there before.
pub open spec fn targets_before(pairs: Seq<SelectPair>, at: nat) -> bool {
    forall|i: int| 0 <= i < pairs.len() ==> (#[trigger] pairs[i]).target < at
}

proof fn lemma_part_selected(
    pairs: Seq<SelectPair>,
    mid: int,
    value: i64,
    fail: Block,
    block: Block,
    less: bool,
)
    requires
        0 <= mid < pairs.len(),
        pairs_in_order(pairs),
        pairs[mid].candidate_raw != unsigned(value),
        less == (unsigned(value) < pairs[mid].candidate_raw),
        less ==> selected(pairs.take(mid), value, fail, block),
        !less ==> selected(pairs.skip(mid + 1), value, fail, block),
    ensures
        selected(pairs, value, fail, block),
{
    let part = if less {
        pairs.take(mid)
    } else {
        pairs.skip(mid + 1)
    };
    let shift: int = if less {
        0
    } else {
        mid + 1
    };
    assert forall|i: int| 0 <= i < part.len() implies #[trigger] part[i] == pairs[i + shift] by {}
    if exists|i: int|
        0 <= i < part.len() && (#[trigger] part[i]).candidate_raw == unsigned(value)
            && part[i].target == block {
        let i = choose|i: int|
            0 <= i < part.len() && (#[trigger] part[i]).candidate_raw == unsigned(value)
                && part[i].target == block;
        assert(pairs[i + shift].candidate_raw == unsigned(value));
    } else {
        assert forall|i: int| 0 <= i < pairs.len() implies (#[trigger] pairs[i]).candidate_raw
            != unsigned(value) by {
            if less && i < mid {
                assert(part[i] == pairs[i]);
            } else if !less && i > mid {
                assert(part[i - shift] == pairs[i]);
            }
        }
    }
}

/// The comparisons with the middle pair: up to the search among the pairs before
/// it. The block is the one of the search among those after it.
spec fn pivot_ir(b: LoweringView, value: Value, pivot: SelectPair) -> (Block, LoweringView) {
    let imm = pivot.candidate_raw as i64;
    let (matched, b) = b.emit(IrOp::CompareImm { cc: IntCc::Equal, left: value, imm });
    let (compare_block, b) = b.create_block();
    let b = b.emit(
        IrOp::Brif { condition: matched, then_block: pivot.target, else_block: compare_block },
    ).1;
    let b = b.switch(compare_block);
    let (less, b) = b.emit(IrOp::CompareImm { cc: IntCc::UnsignedLessThan, left: value, imm });
    let (left_block, b) = b.create_block();
    let (right_block, b) = b.create_block();
    let b = b.emit(
        IrOp::Brif { condition: less, then_block: left_block, else_block: right_block },
    ).1;
    (right_block, b.switch(left_block))
}

proof fn lemma_pivot(b: LoweringView, value: Value, pivot: SelectPair, from: int, start: Flow)
    requires
        b.ops.len() + 16 <= usize::MAX,
        0 <= from <= b.ops.len(),
        value < b.ops.len(),
        pivot.target < b.ops.len(),
        does(b, from, start) matches Flow::Left(block, _) ==> block < b.ops.len(),
    ensures
        ({
            let (right_block, after) = pivot_ir(b, value, pivot);
            &&& b.ops.len() <= right_block < after.ops.len()
            &&& after.ops.len() == b.ops.len() + 9
            &&& match does(b, from, start) {
                Flow::Running(m) => if unsigned(m.values[value]) == pivot.candidate_raw {
                    does(after, from, start) matches Flow::Left(block, n) && block == pivot.target
                        && only_made_values(m, n, b.ops.len() as int)
                } else if unsigned(m.values[value]) < pivot.candidate_raw {
                    does(after, from, start) matches Flow::Running(n) && only_made_values(
                        m,
                        n,
                        b.ops.len() as int,
                    )
                } else {
                    does(after, from, start) matches Flow::Left(block, n) && block == right_block
                        && only_made_values(m, n, b.ops.len() as int)
                },
                other => does(after, from, start) == other,
            }
        }),
{
    let imm = pivot.candidate_raw as i64;
    lemma_unsigned(pivot.candidate_raw);
    let op1 = IrOp::CompareImm { cc: IntCc::Equal, left: value, imm };
    lemma_emit(b, op1, from, start);
    let (matched, b1) = b.emit(op1);
    lemma_emit(b1, IrOp::Block, from, start);
    let (compare_block, b2) = b1.create_block();
    let op3 = IrOp::Brif {
        condition: matched,
        then_block: pivot.target,
        else_block: compare_block,
    };
    lemma_emit(b2, op3, from, start);
    let b3 = b2.emit(op3).1;
    lemma_switch(b3, compare_block, from, start);
    let b4 = b3.switch(compare_block);
    let op5 = IrOp::CompareImm { cc: IntCc::UnsignedLessThan, left: value, imm };
    lemma_emit(b4, op5, from, start);
    let (less, b5) = b4.emit(op5);
    lemma_emit(b5, IrOp::Block, from, start);
    let (left_block, b6) = b5.create_block();
    lemma_emit(b6, IrOp::Block, from, start);
    let (right_block, b7) = b6.create_block();
    let op8 = IrOp::Brif { condition: less, then_block: left_block, else_block: right_block };
    lemma_emit(b7, op8, from, start);
    let b8 = b7.emit(op8).1;
    lemma_switch(b8, left_block, from, start);
}

proof fn lemma_selected_before(
    pairs: Seq<SelectPair>,
    value: i64,
    fail: Block,
    block: Block,
    at: nat,
)
    requires
        fail < at,
        targets_before(pairs, at),
        selected(pairs, value, fail, block),
    ensures
        block < at,
{
}

proof fn lemma_search(
    b: LoweringView,
    value: Value,
    fail: Block,
    pairs: Seq<SelectPair>,
    from: int,
    start: Flow,
)
    requires
        b.ops.len() + 16 * pairs.len() + 16 <= usize::MAX,
        0 <= from <= b.ops.len(),
        value < b.ops.len(),
        fail < b.ops.len(),
        targets_before(pairs, b.ops.len()),
        pairs_in_order(pairs),
        does(b, from, start) matches Flow::Left(block, _) ==> block < b.ops.len(),
    ensures
        ({
            let after = select_search_ir(b, value, fail, pairs);
            &&& b.ops.len() <= after.ops.len() <= b.ops.len() + 16 * pairs.len() + 1
            &&& match does(b, from, start) {
                Flow::Running(m) => does(after, from, start) matches Flow::Left(block, n)
                    && block < b.ops.len() && only_made_values(m, n, b.ops.len() as int)
                    && selected(pairs, m.values[value], fail, block),
                other => does(after, from, start) == other,
            }
        }),
    decreases pairs.len(),
{
    let before = does(b, from, start);
    if pairs.len() == 0 {
        lemma_emit(b, IrOp::Jump { block: fail }, from, start);
    } else if pairs.len() == 1 {
        let pivot = pairs[0];
        lemma_unsigned(pivot.candidate_raw);
        let op1 = IrOp::CompareImm {
            cc: IntCc::Equal,
            left: value,
            imm: pivot.candidate_raw as i64,
        };
        lemma_emit(b, op1, from, start);
        let (matched, b1) = b.emit(op1);
        let op2 = IrOp::Brif { condition: matched, then_block: pivot.target, else_block: fail };
        lemma_emit(b1, op2, from, start);
        if let Flow::Running(m) = before {
            if pivot.candidate_raw == unsigned(m.values[value]) {
                assert(pairs[0].candidate_raw == unsigned(m.values[value]));
            }
        }
    } else {
        let mid = (pairs.len() / 2) as int;
        let pivot = pairs[mid];
        lemma_pivot(b, value, pivot, from, start);
        let (right_block, b1) = pivot_ir(b, value, pivot);
        let firsts = pairs.take(mid);
        let lasts = pairs.skip(mid + 1);
        assert(targets_before(firsts, b1.ops.len()) && pairs_in_order(firsts));
        assert(targets_before(lasts, b1.ops.len()) && pairs_in_order(lasts));
        lemma_search(b1, value, fail, firsts, from, start);
        let b2 = select_search_ir(b1, value, fail, firsts);
        lemma_switch(b2, right_block, from, start);
        let b3 = b2.switch(right_block);
        lemma_search(b3, value, fail, lasts, from, start);
        let after = select_search_ir(b3, value, fail, lasts);
        assert(select_search_ir(b, value, fail, pairs) == after);
        if let Flow::Running(m) = before {
            let word = m.values[value];
            if unsigned(word) == pivot.candidate_raw {
                assert(pairs[mid].candidate_raw == unsigned(word));
                assert(does(after, from, start) == does(b1, from, start));
            } else if unsigned(word) < pivot.candidate_raw {
                let block = does(b2, from, start)->Left_0;
                lemma_selected_before(firsts, word, fail, block, b.ops.len());
                assert(does(after, from, start) == does(b2, from, start));
                lemma_part_selected(pairs, mid, word, fail, block, true);
            } else {
                assert(does(b2, from, start) == does(b1, from, start));
                let block = does(after, from, start)->Left_0;
                lemma_selected_before(lasts, word, fail, block, b.ops.len());
                lemma_part_selected(pairs, mid, word, fail, block, false);
            }
        }
    }
}

proof fn lemma_with_pair(sorted: Seq<SelectPair>, pair: SelectPair)
    requires
        pairs_in_order(sorted),
    ensures
        pairs_in_order(with_pair(sorted, pair)),
        with_pair(sorted, pair).len() == sorted.len() + 1,
        forall|p: SelectPair| #[trigger]
            with_pair(sorted, pair).contains(p) <==> sorted.contains(p) || p == pair,
    decreases sorted.len(),
{
    let after = with_pair(sorted, pair);
    if sorted.len() == 0 || sorted.last().candidate_raw <= pair.candidate_raw {
        assert(after[sorted.len() as int] == pair);
        assert forall|p: SelectPair| #[trigger] after.contains(p) <==> sorted.contains(p) || p
            == pair by {
            if sorted.contains(p) {
                let i = choose|i: int| 0 <= i < sorted.len() && sorted[i] == p;
                assert(after[i] == p);
            }
        }
    } else {
        let rest = sorted.drop_last();
        let before = with_pair(rest, pair);
        lemma_with_pair(rest, pair);
        assert forall|i: int| 0 <= i < before.len() implies (#[trigger] before[i]).candidate_raw
            <= sorted.last().candidate_raw by {
            assert(before.contains(before[i]));
            if rest.contains(before[i]) {
                let j = choose|j: int| 0 <= j < rest.len() && rest[j] == before[i];
                assert(sorted[j].candidate_raw <= sorted[sorted.len() - 1].candidate_raw);
            }
        }
        assert(after[before.len() as int] == sorted.last());
        assert forall|p: SelectPair| #[trigger] after.contains(p) <==> sorted.contains(p) || p
            == pair by {
            if after.contains(p) {
                let i = choose|i: int| 0 <= i < after.len() && after[i] == p;
                if i < before.len() {
                    assert(before.contains(before[i]));
                    if rest.contains(p) {
                        let j = choose|j: int| 0 <= j < rest.len() && rest[j] == p;
                        assert(sorted[j] == p);
                    }
                } else {
                    assert(sorted[sorted.len() - 1] == p);
                }
            }
            if sorted.contains(p) || p == pair {
                if p == sorted.last() {
                } else if p == pair {
                    assert(before.contains(p));
                } else {
                    let j = choose|j: int| 0 <= j < sorted.len() && sorted[j] == p;
                    assert(rest[j] == p);
                    assert(before.contains(p));
                }
                if p != sorted.last() {
                    let i = choose|i: int| 0 <= i < before.len() && before[i] == p;
                    assert(after[i] == p);
                }
            }
        }
    }
}

proof fn lemma_sorted_pairs(pairs: Seq<SelectPair>)
    ensures
        pairs_in_order(sorted_pairs(pairs)),
        sorted_pairs(pairs).len() == pairs.len(),
        forall|p: SelectPair| #[trigger] sorted_pairs(pairs).contains(p) <==> pairs.contains(p),
    decreases pairs.len(),
{
    if pairs.len() > 0 {
        let rest = pairs.drop_last();
        lemma_sorted_pairs(rest);
        lemma_with_pair(sorted_pairs(rest), pairs.last());
        assert forall|p: SelectPair| #[trigger] sorted_pairs(pairs).contains(p) <==> pairs.contains(
            p,
        ) by {
            if rest.contains(p) {
                let i = choose|i: int| 0 <= i < rest.len() && rest[i] == p;
                assert(pairs[i] == p);
            }
            if p == pairs.last() {
                assert(pairs[pairs.len() - 1] == p);
            }
            if pairs.contains(p) && p != pairs.last() {
                let i = choose|i: int| 0 <= i < pairs.len() && pairs[i] == p;
                assert(rest[i] == p);
            }
        }
    }
}

/// A selection goes to the target of a pair whose term the operand is, or to
/// `fail` when there is none, and leaves every register as it was.
pub proof fn law_selection_finds_its_pair(
    b: LoweringView,
    register_file: Value,
    value: OperandView,
    fail: Block,
    pairs: Seq<SelectPair>,
    m: Machine,
)
    requires
        b.ops.len() + 16 * pairs.len() + 32 <= usize::MAX,
        register_file < b.ops.len(),
        fail < b.ops.len(),
        targets_before(pairs, b.ops.len()),
        lower_select_val_ir(b, register_file, value, fail, pairs) is Ok,
    ensures
        ({
            let after = lower_select_val_ir(b, register_file, value, fail, pairs)->Ok_0;
            does(after, b.ops.len() as int, Flow::Running(m)) matches Flow::Left(block, n)
                && n.memory == m.memory && selected(
                pairs,
                operand_value(m, register_file, value),
                fail,
                block,
            )
        }),
{
    let from = b.ops.len() as int;
    let start = Flow::Running(m);
    lemma_read(b, register_file, value, from, start);
    let (word, b1) = read_operand_term_ir(b, register_file, value)->Ok_0;
    let sorted = sorted_pairs(pairs);
    lemma_sorted_pairs(pairs);
    assert forall|i: int| 0 <= i < sorted.len() implies (#[trigger] sorted[i]).target
        < b1.ops.len() by {
        assert(sorted.contains(sorted[i]));
        let j = choose|j: int| 0 <= j < pairs.len() && pairs[j] == sorted[i];
        assert(pairs[j].target < b.ops.len());
    }
    lemma_search(b1, word, fail, sorted, from, start);
    let term = operand_value(m, register_file, value);
    let block = does(select_search_ir(b1, word, fail, sorted), from, start)->Left_0;
    if exists|i: int|
        0 <= i < sorted.len() && (#[trigger] sorted[i]).candidate_raw == unsigned(term)
            && sorted[i].target == block {
        let i = choose|i: int|
            0 <= i < sorted.len() && (#[trigger] sorted[i]).candidate_raw == unsigned(term)
                && sorted[i].target == block;
        assert(sorted.contains(sorted[i]));
        let j = choose|j: int| 0 <= j < pairs.len() && pairs[j] == sorted[i];
        assert(pairs[j].candidate_raw == unsigned(term));
    } else {
        assert forall|j: int| 0 <= j < pairs.len() implies (#[trigger] pairs[j]).candidate_raw
            != unsigned(term) by {
            assert(pairs.contains(pairs[j]));
            assert(sorted.contains(pairs[j]));
            let i = choose|i: int| 0 <= i < sorted.len() && sorted[i] == pairs[j];
            assert(sorted[i].candidate_raw != unsigned(term));
        }
    }
}

} // verus!
