//! The visibility resolver: turns declared per-column visibility modes
//! into an effective show/hide vector, judged against the rows that are
//! actually visible after filtering and sorting.

use crate::model::ColumnVisibility;
use vstd::prelude::*;

verus! {

/// Some row of the table has a non-empty cell in the column.
pub open spec fn column_occupied(rows: Seq<Seq<Seq<char>>>, c: int) -> bool {
    exists|i: int| 0 <= i < rows.len() && (#[trigger] rows[i])[c].len() > 0
}

/// One column's effective visibility: `Hidden` and `Shown` are fixed;
/// `Auto` shows the column exactly when some visible row has a value in it.
pub open spec fn col_visible(mode: ColumnVisibility, rows: Seq<Seq<Seq<char>>>, c: int) -> bool {
    match mode {
        ColumnVisibility::Hidden => false,
        ColumnVisibility::Shown => true,
        ColumnVisibility::Auto => column_occupied(rows, c),
    }
}

/// The effective visibility of every column against the given rows.
pub open spec fn visibility_vector(modes: Seq<ColumnVisibility>, rows: Seq<Seq<Seq<char>>>) -> Seq<
    bool,
> {
    Seq::new(modes.len(), |c: int| col_visible(modes[c], rows, c))
}

/// Whether any row has a non-empty cell in column `c`, proved against
/// `column_occupied`.
fn column_has_value(rows: &Vec<Vec<String>>, c: usize) -> (r: bool)
    requires
        forall|i: int|
            0 <= i < rows.deep_view().len() ==> c < (#[trigger] rows.deep_view()[i]).len(),
    ensures
        r == column_occupied(rows.deep_view(), c as int),
{
    let ghost rdv = rows.deep_view();
    let mut i: usize = 0;
    while i < rows.len()
        invariant
            i <= rows@.len(),
            rdv == rows.deep_view(),
            forall|k: int| 0 <= k < rdv.len() ==> c < (#[trigger] rdv[k]).len(),
            forall|k: int| 0 <= k < i ==> (#[trigger] rdv[k])[c as int].len() == 0,
        decreases rows@.len() - i,
    {
        proof {
            assert(rdv[i as int].len() == rows@[i as int]@.len());
            assert(rdv[i as int][c as int] == rows@[i as int]@[c as int]@);
        }
        if !rows[i][c].as_str().is_empty() {
            return true;
        }
        i = i + 1;
    }
    false
}

/// Resolves every column's visibility against the visible rows, proved
/// against `visibility_vector`.
pub fn resolve_visibility(modes: &Vec<ColumnVisibility>, rows: &Vec<Vec<String>>) -> (vis: Vec<
    bool,
>)
    requires
        forall|i: int|
            0 <= i < rows.deep_view().len() ==> (#[trigger] rows.deep_view()[i]).len()
                == modes@.len(),
    ensures
        vis@ == visibility_vector(modes@, rows.deep_view()),
{
    let mut vis: Vec<bool> = Vec::new();
    let mut c: usize = 0;
    while c < modes.len()
        invariant
            c <= modes@.len(),
            vis@.len() == c,
            forall|i: int|
                0 <= i < rows.deep_view().len() ==> (#[trigger] rows.deep_view()[i]).len()
                    == modes@.len(),
            forall|k: int| 0 <= k < c ==> vis@[k] == col_visible(modes@[k], rows.deep_view(), k),
        decreases modes@.len() - c,
    {
        let v = match modes[c] {
            ColumnVisibility::Hidden => false,
            ColumnVisibility::Shown => true,
            ColumnVisibility::Auto => column_has_value(rows, c),
        };
        vis.push(v);
        c = c + 1;
    }
    proof {
        assert(vis@ =~= visibility_vector(modes@, rows.deep_view()));
    }
    vis
}

/// The cells that fall in visible columns, in order: the projection of a
/// row (or of the header) that the rendering layer draws.
pub open spec fn project_cells(cells: Seq<Seq<char>>, vis: Seq<bool>) -> Seq<Seq<char>>
    decreases cells.len(),
{
    if cells.len() == 0 || vis.len() == 0 {
        Seq::empty()
    } else {
        let rest = project_cells(cells.drop_first(), vis.drop_first());
        if vis[0] {
            seq![cells[0]] + rest
        } else {
            rest
        }
    }
}

/// Keeps the cells of the visible columns, proved against `project_cells`.
pub fn visible_cells(cells: &Vec<String>, vis: &Vec<bool>) -> (out: Vec<String>)
    ensures
        out.deep_view() == project_cells(cells.deep_view(), vis@),
{
    let ghost cv = cells.deep_view();
    let mut out: Vec<String> = Vec::new();
    let mut i: usize = 0;
    let n = if cells.len() < vis.len() {
        cells.len()
    } else {
        vis.len()
    };
    proof {
        assert(out.deep_view() =~= Seq::<Seq<char>>::empty());
        assert(cv.skip(0) =~= cv);
        assert(vis@.skip(0) =~= vis@);
    }
    while i < n
        invariant
            i <= n,
            n <= cv.len(),
            n <= vis@.len(),
            n == if cv.len() < vis@.len() {
                cv.len()
            } else {
                vis@.len()
            },
            cv == cells.deep_view(),
            cv.len() == cells@.len(),
            out.deep_view() + project_cells(cv.skip(i as int), vis@.skip(i as int))
                == project_cells(cv, vis@),
        decreases n - i,
    {
        proof {
            assert(cv.skip(i as int)[0] == cv[i as int]);
            assert(vis@.skip(i as int)[0] == vis@[i as int]);
            assert(cv.skip(i as int).drop_first() =~= cv.skip(i as int + 1));
            assert(vis@.skip(i as int).drop_first() =~= vis@.skip(i as int + 1));
        }
        let ghost out0 = out.deep_view();
        if vis[i] {
            out.push(cells[i].clone());
            proof {
                assert(out.deep_view() =~= out0.push(cv[i as int]));
                assert(out0.push(cv[i as int]) + project_cells(
                    cv.skip(i as int + 1),
                    vis@.skip(i as int + 1),
                ) =~= out0 + (seq![cv[i as int]] + project_cells(
                    cv.skip(i as int + 1),
                    vis@.skip(i as int + 1),
                )));
            }
        }
        i = i + 1;
    }
    proof {
        assert(project_cells(cv.skip(n as int), vis@.skip(n as int)) =~= Seq::<Seq<char>>::empty());
        assert(out.deep_view() + Seq::<Seq<char>>::empty() =~= out.deep_view());
    }
    out
}

} // verus!
