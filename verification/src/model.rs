//! The data model of the viewer: the loaded dataset together with the
//! control state — filters, sort keys and visibility modes — and its
//! well-formedness invariant.

use vstd::prelude::*;

verus! {

/// How one column's visibility is chosen: fixed off, fixed on, or derived
/// from whether any visible row has a non-empty value in the column.
#[derive(Clone, Copy, PartialEq, Eq, Structural, Debug)]
pub enum ColumnVisibility {
    Auto,
    Hidden,
    Shown,
}

/// How one filter's verdict combines with the verdicts of the filters
/// before it in the chain.
#[derive(Clone, Copy, PartialEq, Eq, Structural, Debug)]
pub enum BooleanOp {
    And,
    AndNot,
    Or,
    OrNot,
}

/// One predicate of the filter chain: the column to test, the text to look
/// for in it, and the combining operator.
pub struct Filter {
    pub boolean_op: BooleanOp,
    pub column: Option<usize>,
    pub value: String,
}

/// The mathematical value of a `Filter`: the same fields with the value
/// text abstracted to its character sequence.
#[verifier::ext_equal]
pub struct FilterView {
    pub boolean_op: BooleanOp,
    pub column: Option<usize>,
    pub value: Seq<char>,
}

impl View for Filter {
    type V = FilterView;

    open spec fn view(&self) -> FilterView {
        FilterView { boolean_op: self.boolean_op, column: self.column, value: self.value@ }
    }
}

impl DeepView for Filter {
    type V = FilterView;

    open spec fn deep_view(&self) -> FilterView {
        self@
    }
}

/// The filter value of a freshly added filter: an inert conjunction.
pub open spec fn default_filter_view() -> FilterView {
    FilterView { boolean_op: BooleanOp::And, column: None, value: Seq::empty() }
}

impl Default for Filter {
    fn default() -> (f: Filter)
        ensures
            f@ == default_filter_view(),
    {
        Filter { boolean_op: BooleanOp::And, column: None, value: String::new() }
    }
}

/// The whole state the engine computes from: the dataset (columns and rows)
/// and the control state supplied by the caller.
pub struct Model {
    pub columns: Vec<String>,
    pub column_visibility: Vec<ColumnVisibility>,
    pub filters: Vec<Filter>,
    pub sort_columns: Vec<Option<usize>>,
    pub items: Vec<Vec<String>>,
}

/// The mathematical value of a `Model`: every text abstracted to its
/// character sequence, every list to a sequence.
#[verifier::ext_equal]
pub struct ModelView {
    pub columns: Seq<Seq<char>>,
    pub column_visibility: Seq<ColumnVisibility>,
    pub filters: Seq<FilterView>,
    pub sort_columns: Seq<Option<usize>>,
    pub items: Seq<Seq<Seq<char>>>,
}

impl View for Model {
    type V = ModelView;

    open spec fn view(&self) -> ModelView {
        ModelView {
            columns: self.columns.deep_view(),
            column_visibility: self.column_visibility@,
            filters: self.filters.deep_view(),
            sort_columns: self.sort_columns@,
            items: self.items.deep_view(),
        }
    }
}

/// An optional column reference stays inside the column count.
pub open spec fn col_in_range(c: Option<usize>, ncols: int) -> bool {
    c matches Some(i) ==> i < ncols
}

/// Every filter's column reference stays inside the column count.
pub open spec fn filters_wf(fs: Seq<FilterView>, ncols: int) -> bool {
    forall|i: int| 0 <= i < fs.len() ==> col_in_range((#[trigger] fs[i]).column, ncols)
}

/// Every sort key stays inside the column count.
pub open spec fn sort_columns_wf(keys: Seq<Option<usize>>, ncols: int) -> bool {
    forall|i: int| 0 <= i < keys.len() ==> col_in_range(#[trigger] keys[i], ncols)
}

impl ModelView {
    /// Well-formedness: every row is as long as the column list, the
    /// visibility vector too, and all column references are in range.
    pub open spec fn wf(self) -> bool {
        &&& self.column_visibility.len() == self.columns.len()
        &&& forall|i: int|
            0 <= i < self.items.len() ==> (#[trigger] self.items[i]).len() == self.columns.len()
        &&& filters_wf(self.filters, self.columns.len() as int)
        &&& sort_columns_wf(self.sort_columns, self.columns.len() as int)
    }
}

/// A fresh copy of a row with the same cell texts.
pub fn clone_row(r: &Vec<String>) -> (c: Vec<String>)
    ensures
        c.deep_view() == r.deep_view(),
        c@.len() == r@.len(),
{
    let mut c: Vec<String> = Vec::new();
    let mut i: usize = 0;
    while i < r.len()
        invariant
            i <= r@.len(),
            c@.len() == i,
            forall|k: int| 0 <= k < i ==> (#[trigger] c@[k])@ == r@[k]@,
        decreases r@.len() - i,
    {
        c.push(r[i].clone());
        i = i + 1;
    }
    proof {
        assert(c.deep_view() =~= r.deep_view());
    }
    c
}

impl Default for Model {
    fn default() -> (m: Model)
        ensures
            m@.columns.len() == 0,
            m@.column_visibility.len() == 0,
            m@.filters.len() == 0,
            m@.sort_columns.len() == 0,
            m@.items.len() == 0,
            m@.wf(),
    {
        Model {
            columns: Vec::new(),
            column_visibility: Vec::new(),
            filters: Vec::new(),
            sort_columns: Vec::new(),
            items: Vec::new(),
        }
    }
}

} // verus!
