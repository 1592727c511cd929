//! The command surface's pure state updates: each edit the viewer's UI can
//! make — add, remove or change a filter, a sort key or a visibility mode —
//! maps to one method that changes exactly one field of the model.

use crate::model::{
    col_in_range, default_filter_view, BooleanOp, ColumnVisibility, Filter, FilterView, Model,
    ModelView,
};
use vstd::pervasive::VecAdditionalExecFns;
use vstd::prelude::*;

verus! {

/// The conjunctive counterpart of an operator. A chain's first verdict
/// always combines conjunctively, so a disjunctive operator that comes to
/// lead the chain degenerates to its conjunctive counterpart.
pub open spec fn conjunctive_of(op: BooleanOp) -> BooleanOp {
    match op {
        BooleanOp::Or => BooleanOp::And,
        BooleanOp::OrNot => BooleanOp::AndNot,
        _ => op,
    }
}

/// The filter chain after a removal: the filter at `index` is gone, and if
/// a disjunctive filter now leads the chain, its operator becomes the
/// matching conjunctive one.
pub open spec fn filters_after_remove(fs: Seq<FilterView>, index: int) -> Seq<FilterView> {
    let r = fs.remove(index);
    if index == 0 && r.len() > 0 {
        r.update(0, FilterView { boolean_op: conjunctive_of(r[0].boolean_op), ..r[0] })
    } else {
        r
    }
}

impl Model {
    /// Appends a fresh, inert filter to the chain.
    pub fn add_filter(&mut self)
        ensures
            final(self)@ == (ModelView {
                filters: old(self)@.filters.push(default_filter_view()),
                ..old(self)@
            }),
            old(self)@.wf() ==> final(self)@.wf(),
    {
        self.filters.push(Filter::default());
        proof {
            assert(self.filters.deep_view() =~= old(self).filters.deep_view().push(
                default_filter_view(),
            ));
            assert(self@ =~= (ModelView {
                filters: old(self)@.filters.push(default_filter_view()),
                ..old(self)@
            }));
        }
    }

    /// Removes the filter at `index`. If the first filter of the remaining
    /// chain is disjunctive, its operator becomes the matching conjunctive
    /// one.
    pub fn remove_filter(&mut self, index: usize)
        requires
            index < old(self)@.filters.len(),
        ensures
            final(self)@ == (ModelView {
                filters: filters_after_remove(old(self)@.filters, index as int),
                ..old(self)@
            }),
            old(self)@.wf() ==> final(self)@.wf(),
    {
        let ghost fs0 = self.filters.deep_view();
        self.filters.remove(index);
        proof {
            fs0.remove_ensures(index as int);
            old(self).filters@.remove_ensures(index as int);
            assert(self.filters.deep_view() =~= fs0.remove(index as int));
        }
        if index == 0 && self.filters.len() > 0 {
            let ghost fs1 = self.filters.deep_view();
            let mut first = self.filters.remove(0);
            first.boolean_op = match first.boolean_op {
                BooleanOp::Or => BooleanOp::And,
                BooleanOp::OrNot => BooleanOp::AndNot,
                op => op,
            };
            self.filters.insert(0, first);
            proof {
                assert(first@ == (FilterView {
                    boolean_op: conjunctive_of(fs1[0].boolean_op),
                    ..fs1[0]
                }));
                assert(self.filters.deep_view() =~= fs1.update(0, first@));
            }
        }
        proof {
            assert(self@.filters =~= filters_after_remove(old(self)@.filters, index as int));
            assert(self@ =~= (ModelView {
                filters: filters_after_remove(old(self)@.filters, index as int),
                ..old(self)@
            }));
            if old(self)@.wf() {
                let fs = old(self)@.filters;
                let nc = old(self)@.columns.len() as int;
                assert forall|i: int| 0 <= i < self@.filters.len() implies col_in_range(
                    (#[trigger] self@.filters[i]).column,
                    nc,
                ) by {
                    if i < index {
                        assert(fs.remove(index as int)[i] == fs[i]);
                    } else {
                        assert(fs.remove(index as int)[i] == fs[i + 1]);
                    }
                }
            }
        }
    }

    /// Replaces the boolean operator of the filter at `index`.
    pub fn change_filter_boolean_op(&mut self, index: usize, op: BooleanOp)
        requires
            index < old(self)@.filters.len(),
        ensures
            final(self)@ == (ModelView {
                filters: old(self)@.filters.update(
                    index as int,
                    FilterView { boolean_op: op, ..old(self)@.filters[index as int] },
                ),
                ..old(self)@
            }),
            old(self)@.wf() ==> final(self)@.wf(),
    {
        let ghost fs0 = self.filters.deep_view();
        let mut f = self.filters.remove(index);
        f.boolean_op = op;
        self.filters.insert(index, f);
        proof {
            fs0.remove_ensures(index as int);
            old(self).filters@.remove_ensures(index as int);
            self.filters@.insert_ensures(index as int, f);
            fs0.remove(index as int).insert_ensures(index as int, f@);
            assert(self.filters.deep_view() =~= fs0.update(index as int, f@));
            assert(self@ =~= (ModelView {
                filters: old(self)@.filters.update(index as int, f@),
                ..old(self)@
            }));
            if old(self)@.wf() {
                let nc = old(self)@.columns.len() as int;
                assert forall|i: int| 0 <= i < self@.filters.len() implies col_in_range(
                    (#[trigger] self@.filters[i]).column,
                    nc,
                ) by {
                    assert(col_in_range(fs0[i].column, nc));
                }
            }
        }
    }

    /// Points the filter at `index` at another column, or at none.
    pub fn change_filter_column(&mut self, index: usize, column: Option<usize>)
        requires
            index < old(self)@.filters.len(),
        ensures
            final(self)@ == (ModelView {
                filters: old(self)@.filters.update(
                    index as int,
                    FilterView { column, ..old(self)@.filters[index as int] },
                ),
                ..old(self)@
            }),
            old(self)@.wf() && col_in_range(column, old(self)@.columns.len() as int)
                ==> final(self)@.wf(),
    {
        let ghost fs0 = self.filters.deep_view();
        let mut f = self.filters.remove(index);
        f.column = column;
        self.filters.insert(index, f);
        proof {
            fs0.remove_ensures(index as int);
            old(self).filters@.remove_ensures(index as int);
            self.filters@.insert_ensures(index as int, f);
            fs0.remove(index as int).insert_ensures(index as int, f@);
            assert(self.filters.deep_view() =~= fs0.update(index as int, f@));
            assert(self@ =~= (ModelView {
                filters: old(self)@.filters.update(index as int, f@),
                ..old(self)@
            }));
            if old(self)@.wf() && col_in_range(column, old(self)@.columns.len() as int) {
                let nc = old(self)@.columns.len() as int;
                assert forall|i: int| 0 <= i < self@.filters.len() implies col_in_range(
                    (#[trigger] self@.filters[i]).column,
                    nc,
                ) by {
                    assert(col_in_range(fs0[i].column, nc));
                }
            }
        }
    }

    /// Replaces the text the filter at `index` looks for.
    pub fn change_filter_value(&mut self, index: usize, value: String)
        requires
            index < old(self)@.filters.len(),
        ensures
            final(self)@ == (ModelView {
                filters: old(self)@.filters.update(
                    index as int,
                    FilterView { value: value@, ..old(self)@.filters[index as int] },
                ),
                ..old(self)@
            }),
            old(self)@.wf() ==> final(self)@.wf(),
    {
        let ghost fs0 = self.filters.deep_view();
        let ghost vv = value@;
        let mut f = self.filters.remove(index);
        f.value = value;
        self.filters.insert(index, f);
        proof {
            fs0.remove_ensures(index as int);
            old(self).filters@.remove_ensures(index as int);
            self.filters@.insert_ensures(index as int, f);
            fs0.remove(index as int).insert_ensures(index as int, f@);
            assert(self.filters.deep_view() =~= fs0.update(index as int, f@));
            assert(self@ =~= (ModelView {
                filters: old(self)@.filters.update(index as int, f@),
                ..old(self)@
            }));
            if old(self)@.wf() {
                let nc = old(self)@.columns.len() as int;
                assert forall|i: int| 0 <= i < self@.filters.len() implies col_in_range(
                    (#[trigger] self@.filters[i]).column,
                    nc,
                ) by {
                    assert(col_in_range(fs0[i].column, nc));
                }
            }
        }
    }

    /// Replaces the visibility mode of the column at `index`.
    pub fn change_column_visibility(&mut self, index: usize, mode: ColumnVisibility)
        requires
            index < old(self)@.column_visibility.len(),
        ensures
            final(self)@ == (ModelView {
                column_visibility: old(self)@.column_visibility.update(index as int, mode),
                ..old(self)@
            }),
            old(self)@.wf() ==> final(self)@.wf(),
    {
        self.column_visibility.set(index, mode);
        proof {
            assert(self@ =~= (ModelView {
                column_visibility: old(self)@.column_visibility.update(index as int, mode),
                ..old(self)@
            }));
        }
    }

    /// Replaces every column's visibility mode at once.
    pub fn change_all_column_visibility(&mut self, mode: ColumnVisibility)
        ensures
            final(self)@ == (ModelView {
                column_visibility: Seq::new(
                    old(self)@.column_visibility.len(),
                    |i: int| mode,
                ),
                ..old(self)@
            }),
            old(self)@.wf() ==> final(self)@.wf(),
    {
        let n = self.column_visibility.len();
        let mut i: usize = 0;
        while i < n
            invariant
                i <= n,
                n == self.column_visibility@.len(),
                self.columns == old(self).columns,
                self.filters == old(self).filters,
                self.sort_columns == old(self).sort_columns,
                self.items == old(self).items,
                forall|k: int| 0 <= k < i ==> self.column_visibility@[k] == mode,
                forall|k: int|
                    i <= k < n ==> self.column_visibility@[k] == old(self).column_visibility@[k],
            decreases n - i,
        {
            self.column_visibility.set(i, mode);
            i = i + 1;
        }
        proof {
            assert(self@ =~= (ModelView {
                column_visibility: Seq::new(old(self)@.column_visibility.len(), |i: int| mode),
                ..old(self)@
            }));
        }
    }

    /// Appends an unset sort key at the lowest priority.
    pub fn add_sort_column(&mut self)
        ensures
            final(self)@ == (ModelView {
                sort_columns: old(self)@.sort_columns.push(None),
                ..old(self)@
            }),
            old(self)@.wf() ==> final(self)@.wf(),
    {
        self.sort_columns.push(None);
        proof {
            assert(self@ =~= (ModelView {
                sort_columns: old(self)@.sort_columns.push(None),
                ..old(self)@
            }));
        }
    }

    /// Removes the sort key at `index`.
    pub fn remove_sort_column(&mut self, index: usize)
        requires
            index < old(self)@.sort_columns.len(),
        ensures
            final(self)@ == (ModelView {
                sort_columns: old(self)@.sort_columns.remove(index as int),
                ..old(self)@
            }),
            old(self)@.wf() ==> final(self)@.wf(),
    {
        self.sort_columns.remove(index);
        proof {
            old(self).sort_columns@.remove_ensures(index as int);
            assert(self@ =~= (ModelView {
                sort_columns: old(self)@.sort_columns.remove(index as int),
                ..old(self)@
            }));
            if old(self)@.wf() {
                let ks = old(self)@.sort_columns;
                let nc = old(self)@.columns.len() as int;
                assert forall|i: int| 0 <= i < self@.sort_columns.len() implies col_in_range(
                    #[trigger] self@.sort_columns[i],
                    nc,
                ) by {
                    if i < index {
                        assert(ks.remove(index as int)[i] == ks[i]);
                    } else {
                        assert(ks.remove(index as int)[i] == ks[i + 1]);
                    }
                }
            }
        }
    }

    /// Points the sort key at `index` at another column, or at none.
    pub fn change_sort_column(&mut self, index: usize, column: Option<usize>)
        requires
            index < old(self)@.sort_columns.len(),
        ensures
            final(self)@ == (ModelView {
                sort_columns: old(self)@.sort_columns.update(index as int, column),
                ..old(self)@
            }),
            old(self)@.wf() && col_in_range(column, old(self)@.columns.len() as int)
                ==> final(self)@.wf(),
    {
        self.sort_columns.set(index, column);
        proof {
            assert(self@ =~= (ModelView {
                sort_columns: old(self)@.sort_columns.update(index as int, column),
                ..old(self)@
            }));
        }
    }
}

} // verus!
