//! Dataset ingestion: parsing delimited text into a header and data rows
//! through the csv reader, and installing the parsed dataset in the model.

use crate::model::{ColumnVisibility, Model, ModelView};
use vstd::prelude::*;

verus! {

/// What the csv reader makes of a delimited text, a function of the text
/// alone: `None` when the reader reports an error, otherwise the header
/// cells and the data rows.
pub uninterp spec fn csv_table_of(s: Seq<char>) -> Option<(Seq<Seq<char>>, Seq<Seq<Seq<char>>>)>;

/// Relies on `csv::Reader` in its default configuration: the first record
/// is the header, every data record must have exactly as many fields as
/// the header (otherwise reading fails), and the parse depends on the text
/// alone.
#[verifier::external_body]
fn parse_table(data: &str) -> (r: Option<(Vec<String>, Vec<Vec<String>>)>)
    ensures
        match r {
            Some(t) => {
                &&& csv_table_of(data@) == Some((t.0.deep_view(), t.1.deep_view()))
                &&& forall|i: int|
                    0 <= i < t.1.deep_view().len() ==> (#[trigger] t.1.deep_view()[i]).len()
                        == t.0.deep_view().len()
            },
            None => csv_table_of(data@) is None,
        },
{
    let mut reader = csv::Reader::from_reader(data.as_bytes());
    let columns: Vec<String> = match reader.headers() {
        Ok(h) => h.iter().map(|s| s.to_owned()).collect(),
        Err(_) => return None,
    };
    let mut rows: Vec<Vec<String>> = Vec::new();
    for record in reader.records() {
        match record {
            Ok(r) => rows.push(r.iter().map(|s| s.to_owned()).collect()),
            Err(_) => return None,
        }
    }
    Some((columns, rows))
}

impl Model {
    /// Installs a parsed dataset: replaces the columns and rows atomically,
    /// and resets the control state to its defaults — no filters, no sort
    /// keys, every column's visibility on `Auto`.
    pub fn install_dataset(&mut self, columns: Vec<String>, items: Vec<Vec<String>>)
        requires
            forall|i: int|
                0 <= i < items.deep_view().len() ==> (#[trigger] items.deep_view()[i]).len()
                    == columns.deep_view().len(),
        ensures
            final(self)@ == (ModelView {
                columns: columns.deep_view(),
                column_visibility: Seq::new(
                    columns.deep_view().len(),
                    |i: int| ColumnVisibility::Auto,
                ),
                filters: Seq::empty(),
                sort_columns: Seq::empty(),
                items: items.deep_view(),
            }),
            final(self)@.wf(),
    {
        let n = columns.len();
        self.columns = columns;
        self.items = items;
        self.filters = Vec::new();
        self.sort_columns = Vec::new();
        let mut modes: Vec<ColumnVisibility> = Vec::new();
        let mut i: usize = 0;
        while i < n
            invariant
                i <= n,
                modes@.len() == i,
                forall|k: int| 0 <= k < i ==> modes@[k] == ColumnVisibility::Auto,
            decreases n - i,
        {
            modes.push(ColumnVisibility::Auto);
            i = i + 1;
        }
        self.column_visibility = modes;
        proof {
            assert(self.filters.deep_view() =~= Seq::<crate::model::FilterView>::empty());
            assert(self.column_visibility@ =~= Seq::new(
                self.columns.deep_view().len(),
                |i: int| ColumnVisibility::Auto,
            ));
            assert(self@ =~= (ModelView {
                columns: self.columns.deep_view(),
                column_visibility: Seq::new(
                    self.columns.deep_view().len(),
                    |i: int| ColumnVisibility::Auto,
                ),
                filters: Seq::empty(),
                sort_columns: Seq::empty(),
                items: self.items.deep_view(),
            }));
        }
    }

    /// Loads a dataset from delimited text. On a parse failure the model
    /// is left unchanged and `false` is returned; on success the parsed
    /// dataset is installed, the control state is reset to its defaults,
    /// and `true` is returned.
    pub fn load_dataset(&mut self, data: &str) -> (ok: bool)
        ensures
            match csv_table_of(data@) {
                Some(t) => {
                    &&& ok
                    &&& final(self)@ == (ModelView {
                        columns: t.0,
                        column_visibility: Seq::new(t.0.len(), |i: int| ColumnVisibility::Auto),
                        filters: Seq::empty(),
                        sort_columns: Seq::empty(),
                        items: t.1,
                    })
                    &&& final(self)@.wf()
                },
                None => !ok && *final(self) == *old(self),
            },
    {
        match parse_table(data) {
            Some((columns, items)) => {
                self.install_dataset(columns, items);
                true
            },
            None => false,
        }
    }
}

} // verus!
