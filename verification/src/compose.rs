//! The view composer: filters the rows, sorts the survivors, resolves the
//! column visibility against the sorted survivors, and returns the final
//! projection. Stateless: the result is a function of the model alone.

use crate::filter::{passes, passes_filters};
use crate::model::{clone_row, filters_wf, sort_columns_wf, Model, ModelView};
use crate::sort::{
    lemma_sort_rows_len, lemma_sort_rows_permutes, lemma_sort_rows_sorted, rows_len, rows_sorted,
    sort_rows, sort_table,
};
use crate::visibility::{resolve_visibility, visibility_vector};
use vstd::prelude::*;

verus! {

/// The outcome of one view computation: the surviving rows in sorted
/// order, the effective visibility of each column, and the survivor count.
pub struct ComputedView {
    pub ordered_rows: Vec<Vec<String>>,
    pub column_visibility: Vec<bool>,
    pub visible_row_count: usize,
}

/// The rows that pass the filter chain, in their dataset order.
pub open spec fn filtered_rows(m: ModelView) -> Seq<Seq<Seq<char>>> {
    m.items.filter(|r: Seq<Seq<char>>| passes(m.filters, r))
}

/// The filtered rows, in sorted order.
pub open spec fn ordered_rows_of(m: ModelView) -> Seq<Seq<Seq<char>>> {
    sort_rows(m.sort_columns, filtered_rows(m))
}

/// The effective visibility of each column, resolved against the
/// filtered, sorted rows — not against the raw dataset.
pub open spec fn visibility_of(m: ModelView) -> Seq<bool> {
    visibility_vector(m.column_visibility, ordered_rows_of(m))
}

impl Model {
    /// Computes the view: filters the rows (keeping their relative order),
    /// sorts the survivors, and resolves each column's visibility against
    /// the sorted survivors. The result is a function of the model value
    /// alone, so two calls on identical inputs return identical views.
    pub fn compute(&self) -> (out: ComputedView)
        requires
            self@.wf(),
        ensures
            out.ordered_rows.deep_view() == ordered_rows_of(self@),
            out.column_visibility@ == visibility_of(self@),
            out.visible_row_count == filtered_rows(self@).len(),
            out.ordered_rows@.len() == out.visible_row_count,
            out.ordered_rows.deep_view().to_multiset() == filtered_rows(self@).to_multiset(),
            rows_sorted(self@.sort_columns, out.ordered_rows.deep_view()),
    {
        let ghost m = self@;
        let ghost pred = |r: Seq<Seq<char>>| passes(m.filters, r);
        let ghost ncols = m.columns.len() as int;
        let mut survivors: Vec<Vec<String>> = Vec::new();
        let mut i: usize = 0;
        proof {
            reveal(Seq::filter);
            assert(m.items.take(0) =~= Seq::<Seq<Seq<char>>>::empty());
            assert(survivors.deep_view() =~= Seq::<Seq<Seq<char>>>::empty());
            assert(m.items.take(0).filter(pred) =~= Seq::<Seq<Seq<char>>>::empty());
        }
        while i < self.items.len()
            invariant
                i <= self.items@.len(),
                m == self@,
                m.wf(),
                pred == (|r: Seq<Seq<char>>| passes(m.filters, r)),
                ncols == m.columns.len() as int,
                survivors.deep_view() == m.items.take(i as int).filter(pred),
                rows_len(survivors.deep_view(), ncols),
            decreases self.items@.len() - i,
        {
            proof {
                reveal(Seq::filter);
                assert(m.items[i as int] == self.items@[i as int].deep_view());
                assert(m.items[i as int].len() == ncols);
                assert(m.items[i as int].len() == self.items@[i as int]@.len());
                assert(filters_wf(m.filters, self.items@[i as int]@.len() as int));
                assert(m.items.take(i as int + 1).drop_last() =~= m.items.take(i as int));
                assert(m.items.take(i as int + 1).last() == m.items[i as int]);
                assert(m.items.take(i as int + 1).filter(pred) == if pred(m.items[i as int]) {
                    m.items.take(i as int).filter(pred).push(m.items[i as int])
                } else {
                    m.items.take(i as int).filter(pred)
                });
            }
            let keep = passes_filters(&self.filters, &self.items[i]);
            if keep {
                let row = clone_row(&self.items[i]);
                survivors.push(row);
                proof {
                    assert(survivors.deep_view() =~= m.items.take(i as int).filter(pred).push(
                        m.items[i as int],
                    ));
                }
            }
            i = i + 1;
        }
        proof {
            assert(m.items.take(self.items@.len() as int) =~= m.items);
            assert(survivors.deep_view() == filtered_rows(m));
            assert forall|k: int| 0 <= k < survivors.deep_view().len() implies sort_columns_wf(
                m.sort_columns,
                (#[trigger] survivors.deep_view()[k]).len() as int,
            ) by {
                assert(survivors.deep_view()[k].len() == ncols);
            }
        }
        let count = survivors.len();
        let sorted = sort_table(&self.sort_columns, &survivors);
        proof {
            assert(sorted.deep_view() == ordered_rows_of(m));
            lemma_sort_rows_len(m.sort_columns, survivors.deep_view(), ncols);
            assert forall|k: int| 0 <= k < sorted.deep_view().len() implies (
            #[trigger] sorted.deep_view()[k]).len() == self.column_visibility@.len() by {
                assert(rows_len(sorted.deep_view(), ncols));
            }
        }
        let vis = resolve_visibility(&self.column_visibility, &sorted);
        proof {
            lemma_sort_rows_permutes(m.sort_columns, survivors.deep_view());
            lemma_sort_rows_sorted(m.sort_columns, survivors.deep_view());
        }
        ComputedView { ordered_rows: sorted, column_visibility: vis, visible_row_count: count }
    }
}

} // verus!
