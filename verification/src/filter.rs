//! The filter engine: evaluates an ordered chain of filter predicates
//! against one row, combining verdicts through the chain's boolean
//! operators. Conjunctive operators short-circuit a failure; disjunctive
//! operators can only rescue one.

use crate::model::{filters_wf, BooleanOp, Filter, FilterView};
use crate::text::{cell_matches, matches_cell};
use vstd::prelude::*;

verus! {

/// A filter takes part in evaluation only when it names a column and its
/// value is non-empty; otherwise it is inert.
pub open spec fn filter_active(f: FilterView) -> bool {
    f.value.len() > 0 && f.column is Some
}

/// The verdict one filter casts on a row: the case-insensitive substring
/// match of its value in its column, negated for the NOT operators.
pub open spec fn filter_verdict(f: FilterView, row: Seq<Seq<char>>) -> bool
    recommends
        f.column is Some,
{
    match f.column {
        Some(c) => {
            let m = cell_matches(row[c as int], f.value);
            match f.boolean_op {
                BooleanOp::And | BooleanOp::Or => m,
                BooleanOp::AndNot | BooleanOp::OrNot => !m,
            }
        },
        None => true,
    }
}

/// The chain evaluation, continued from an accumulated verdict. Inert
/// filters leave the accumulator alone; a conjunctive filter on a failed
/// accumulator ends the row's evaluation with a failure; a disjunctive
/// filter re-tests only a failed accumulator. A row passes when the final
/// accumulator is no failure.
pub open spec fn passes_from(fs: Seq<FilterView>, row: Seq<Seq<char>>, acc: Option<bool>) -> bool
    decreases fs.len(),
{
    if fs.len() == 0 {
        acc != Some(false)
    } else {
        let f = fs[0];
        let rest = fs.drop_first();
        if !filter_active(f) {
            passes_from(rest, row, acc)
        } else {
            match f.boolean_op {
                BooleanOp::And | BooleanOp::AndNot => {
                    if acc == Some(false) {
                        false
                    } else {
                        passes_from(rest, row, Some(filter_verdict(f, row)))
                    }
                },
                BooleanOp::Or | BooleanOp::OrNot => {
                    if acc == Some(false) {
                        passes_from(rest, row, Some(filter_verdict(f, row)))
                    } else {
                        passes_from(rest, row, acc)
                    }
                },
            }
        }
    }
}

/// A row passes the filter chain when evaluation from an empty accumulator
/// ends in no failure; with no active filter at all, every row passes.
pub open spec fn passes(fs: Seq<FilterView>, row: Seq<Seq<char>>) -> bool {
    passes_from(fs, row, None)
}

/// Evaluates the filter chain on one row, proved against `passes`.
pub fn passes_filters(filters: &Vec<Filter>, row: &Vec<String>) -> (r: bool)
    requires
        filters_wf(filters.deep_view(), row@.len() as int),
    ensures
        r == passes(filters.deep_view(), row.deep_view()),
{
    let ghost fsv = filters.deep_view();
    let ghost rv = row.deep_view();
    let mut acc: Option<bool> = None;
    let mut i: usize = 0;
    proof {
        assert(fsv.skip(0) =~= fsv);
    }
    while i < filters.len()
        invariant
            i <= filters.len(),
            fsv == filters.deep_view(),
            rv == row.deep_view(),
            filters_wf(fsv, rv.len() as int),
            rv.len() == row@.len(),
            passes_from(fsv.skip(i as int), rv, acc) == passes(fsv, rv),
        decreases filters.len() - i,
    {
        proof {
            assert(fsv.skip(i as int)[0] == fsv[i as int]);
            assert(fsv.skip(i as int).drop_first() =~= fsv.skip(i as int + 1));
        }
        let f = &filters[i];
        if f.value.as_str().is_empty() {
            // inert: the accumulator is unchanged
        } else if let Some(c) = f.column {
            let failed = match acc {
                Some(b) => !b,
                None => false,
            };
            match f.boolean_op {
                BooleanOp::And | BooleanOp::AndNot => {
                    if failed {
                        return false;
                    }
                    let m = matches_cell(row[c].as_str(), f.value.as_str());
                    let verdict = if matches!(f.boolean_op, BooleanOp::And) {
                        m
                    } else {
                        !m
                    };
                    acc = Some(verdict);
                },
                BooleanOp::Or | BooleanOp::OrNot => {
                    if failed {
                        let m = matches_cell(row[c].as_str(), f.value.as_str());
                        let verdict = if matches!(f.boolean_op, BooleanOp::Or) {
                            m
                        } else {
                            !m
                        };
                        acc = Some(verdict);
                    }
                },
            }
        }
        i = i + 1;
    }
    match acc {
        Some(b) => b,
        None => true,
    }
}

/// An inert filter (empty value or no column) never affects the outcome:
/// inserting one anywhere in the chain leaves every row's verdict
/// unchanged, from any accumulated verdict.
proof fn lemma_inert_filter_from(
    fs: Seq<FilterView>,
    i: int,
    f: FilterView,
    row: Seq<Seq<char>>,
    acc: Option<bool>,
)
    requires
        0 <= i <= fs.len(),
        !filter_active(f),
    ensures
        passes_from(fs.insert(i, f), row, acc) == passes_from(fs, row, acc),
    decreases fs.len(),
{
    if i == 0 {
        assert(fs.insert(0, f)[0] == f);
        assert(fs.insert(0, f).drop_first() =~= fs);
    } else {
        assert(fs.insert(i, f)[0] == fs[0]);
        assert(fs.insert(i, f).drop_first() =~= fs.drop_first().insert(i - 1, f));
        lemma_inert_filter_from(fs.drop_first(), i - 1, f, row, acc);
        lemma_inert_filter_from(
            fs.drop_first(),
            i - 1,
            f,
            row,
            Some(filter_verdict(fs[0], row)),
        );
    }
}

/// An inert filter (empty value or no column) never affects the outcome:
/// inserting one anywhere in the chain — or, read backwards, removing one —
/// leaves every row's pass/fail verdict unchanged.
pub proof fn lemma_inert_filter_irrelevant(
    fs: Seq<FilterView>,
    i: int,
    f: FilterView,
    row: Seq<Seq<char>>,
)
    requires
        0 <= i <= fs.len(),
        !filter_active(f),
    ensures
        passes(fs.insert(i, f), row) == passes(fs, row),
{
    lemma_inert_filter_from(fs, i, f, row, None);
}

/// Once the accumulated verdict is a failure, a chain of conjunctive
/// filters can never turn it back into a pass.
pub proof fn lemma_conjunctive_chain_keeps_failure(fs: Seq<FilterView>, row: Seq<Seq<char>>)
    requires
        forall|i: int|
            0 <= i < fs.len() ==> ((#[trigger] fs[i]).boolean_op == BooleanOp::And
                || fs[i].boolean_op == BooleanOp::AndNot),
    ensures
        !passes_from(fs, row, Some(false)),
    decreases fs.len(),
{
    if fs.len() > 0 {
        lemma_conjunctive_chain_keeps_failure(fs.drop_first(), row);
    }
}

/// A failing conjunctive filter short-circuits the chain: whatever
/// conjunctive filters follow it, and whatever their columns hold, the
/// row fails.
pub proof fn lemma_and_short_circuit(f0: FilterView, rest: Seq<FilterView>, row: Seq<Seq<char>>)
    requires
        filter_active(f0),
        f0.boolean_op == BooleanOp::And || f0.boolean_op == BooleanOp::AndNot,
        !filter_verdict(f0, row),
        forall|i: int|
            0 <= i < rest.len() ==> ((#[trigger] rest[i]).boolean_op == BooleanOp::And
                || rest[i].boolean_op == BooleanOp::AndNot),
    ensures
        !passes(seq![f0] + rest, row),
{
    assert((seq![f0] + rest)[0] == f0);
    assert((seq![f0] + rest).drop_first() =~= rest);
    lemma_conjunctive_chain_keeps_failure(rest, row);
}

/// A disjunctive filter rescues a failing chain: a row that fails a
/// conjunctive filter but satisfies the disjunctive filter after it passes.
pub proof fn lemma_or_rescue(f0: FilterView, f1: FilterView, row: Seq<Seq<char>>)
    requires
        filter_active(f0),
        f0.boolean_op == BooleanOp::And || f0.boolean_op == BooleanOp::AndNot,
        !filter_verdict(f0, row),
        filter_active(f1),
        f1.boolean_op == BooleanOp::Or || f1.boolean_op == BooleanOp::OrNot,
        filter_verdict(f1, row),
    ensures
        passes(seq![f0, f1], row),
{
    assert(seq![f0, f1][0] == f0);
    assert(seq![f0, f1].drop_first() =~= seq![f1]);
    assert(seq![f1][0] == f1);
    assert(seq![f1].drop_first() =~= Seq::<FilterView>::empty());
    assert(passes_from(seq![f0, f1], row, None) == passes_from(seq![f1], row, Some(false)));
    assert(passes_from(seq![f1], row, Some(false)) == passes_from(
        Seq::<FilterView>::empty(),
        row,
        Some(true),
    ));
    assert(passes_from(Seq::<FilterView>::empty(), row, Some(true)));
}

} // verus!
