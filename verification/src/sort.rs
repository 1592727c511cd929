//! The sort engine: a multi-key row comparator — empty cells sort last,
//! text compares case-insensitively, an unset key ends the comparison —
//! and an insertion sort of the filtered rows proved against it.

use crate::model::{clone_row, col_in_range, sort_columns_wf};
use crate::order::{
    chars_cmp, cmp_chars, lemma_chars_cmp_flip, lemma_chars_cmp_refl, lemma_chars_cmp_trans,
};
use crate::text::{chars_vec, lower_of, to_lower};
use core::cmp::Ordering;
use vstd::prelude::*;

verus! {

/// Comparison of two cells under one sort key: an empty cell sorts after
/// any non-empty cell; otherwise the lowercase forms compare
/// lexicographically.
pub open spec fn key_cmp(a: Seq<char>, b: Seq<char>) -> Ordering {
    if a.len() == 0 && b.len() > 0 {
        Ordering::Greater
    } else if a.len() > 0 && b.len() == 0 {
        Ordering::Less
    } else {
        chars_cmp(lower_of(a), lower_of(b))
    }
}

/// Comparison of two rows under a list of sort keys, in priority order:
/// an unset key ends the comparison as a tie; a set key that decides wins;
/// a tie on a set key falls through to the next key.
pub open spec fn rows_cmp(keys: Seq<Option<usize>>, a: Seq<Seq<char>>, b: Seq<Seq<char>>) -> Ordering
    decreases keys.len(),
{
    if keys.len() == 0 {
        Ordering::Equal
    } else {
        match keys[0] {
            None => Ordering::Equal,
            Some(c) => {
                let o = key_cmp(a[c as int], b[c as int]);
                if o == Ordering::Equal {
                    rows_cmp(keys.drop_first(), a, b)
                } else {
                    o
                }
            },
        }
    }
}

/// `a` sorts no later than `b` under the keys.
pub open spec fn row_le(keys: Seq<Option<usize>>, a: Seq<Seq<char>>, b: Seq<Seq<char>>) -> bool {
    rows_cmp(keys, a, b) != Ordering::Greater
}

/// Compares two rows under the sort keys, proved against `rows_cmp`.
pub fn compare_rows(sort_columns: &Vec<Option<usize>>, a: &Vec<String>, b: &Vec<String>) -> (r:
    Ordering)
    requires
        sort_columns_wf(sort_columns@, a@.len() as int),
        sort_columns_wf(sort_columns@, b@.len() as int),
    ensures
        r == rows_cmp(sort_columns@, a.deep_view(), b.deep_view()),
{
    let ghost keys = sort_columns@;
    let ghost av = a.deep_view();
    let ghost bv = b.deep_view();
    let mut i: usize = 0;
    proof {
        assert(keys.skip(0) =~= keys);
    }
    while i < sort_columns.len()
        invariant
            i <= keys.len(),
            keys == sort_columns@,
            av == a.deep_view(),
            bv == b.deep_view(),
            sort_columns_wf(keys, av.len() as int),
            sort_columns_wf(keys, bv.len() as int),
            av.len() == a@.len(),
            bv.len() == b@.len(),
            rows_cmp(keys.skip(i as int), av, bv) == rows_cmp(keys, av, bv),
        decreases keys.len() - i,
    {
        proof {
            assert(keys.skip(i as int)[0] == keys[i as int]);
            assert(keys.skip(i as int).drop_first() =~= keys.skip(i as int + 1));
            assert(col_in_range(keys[i as int], av.len() as int));
            assert(col_in_range(keys[i as int], bv.len() as int));
        }
        match sort_columns[i] {
            None => {
                return Ordering::Equal;
            },
            Some(c) => {
                let a_empty = a[c].as_str().is_empty();
                let b_empty = b[c].as_str().is_empty();
                if a_empty && !b_empty {
                    return Ordering::Greater;
                }
                if !a_empty && b_empty {
                    return Ordering::Less;
                }
                let fa = to_lower(a[c].as_str());
                let fb = to_lower(b[c].as_str());
                let ca = chars_vec(fa.as_str());
                let cb = chars_vec(fb.as_str());
                let o = cmp_chars(&ca, &cb);
                match o {
                    Ordering::Equal => {},
                    _ => {
                        return o;
                    },
                }
            },
        }
        i = i + 1;
    }
    Ordering::Equal
}

/// Swapping the rows mirrors the comparator's verdict.
pub proof fn lemma_key_cmp_flip(a: Seq<char>, b: Seq<char>)
    ensures
        (key_cmp(a, b) == Ordering::Less) <==> (key_cmp(b, a) == Ordering::Greater),
        (key_cmp(a, b) == Ordering::Equal) <==> (key_cmp(b, a) == Ordering::Equal),
{
    lemma_chars_cmp_flip(lower_of(a), lower_of(b));
}

/// One key's comparison composes transitively, `Equal` acting as identity.
pub proof fn lemma_key_cmp_trans(a: Seq<char>, b: Seq<char>, c: Seq<char>)
    ensures
        key_cmp(a, b) == Ordering::Less && key_cmp(b, c) == Ordering::Less ==> key_cmp(a, c)
            == Ordering::Less,
        key_cmp(a, b) == Ordering::Less && key_cmp(b, c) == Ordering::Equal ==> key_cmp(a, c)
            == Ordering::Less,
        key_cmp(a, b) == Ordering::Equal && key_cmp(b, c) == Ordering::Less ==> key_cmp(a, c)
            == Ordering::Less,
        key_cmp(a, b) == Ordering::Equal && key_cmp(b, c) == Ordering::Equal ==> key_cmp(a, c)
            == Ordering::Equal,
{
    lemma_chars_cmp_trans(lower_of(a), lower_of(b), lower_of(c));
    if a.len() == 0 && b.len() == 0 {
        assert(a =~= b);
    }
    if b.len() == 0 && c.len() == 0 {
        assert(b =~= c);
    }
    if a.len() == 0 && c.len() == 0 {
        assert(a =~= c);
    }
    lemma_chars_cmp_refl(lower_of(a));
    lemma_chars_cmp_refl(lower_of(b));
    lemma_chars_cmp_refl(lower_of(c));
}

/// Swapping the rows mirrors the whole chain's verdict; in particular the
/// comparator is total: of any two rows, one sorts no later than the other.
pub proof fn lemma_rows_cmp_flip(keys: Seq<Option<usize>>, a: Seq<Seq<char>>, b: Seq<Seq<char>>)
    ensures
        (rows_cmp(keys, a, b) == Ordering::Less) <==> (rows_cmp(keys, b, a) == Ordering::Greater),
        (rows_cmp(keys, a, b) == Ordering::Equal) <==> (rows_cmp(keys, b, a) == Ordering::Equal),
        row_le(keys, a, b) || row_le(keys, b, a),
    decreases keys.len(),
{
    if keys.len() > 0 {
        match keys[0] {
            None => {},
            Some(c) => {
                lemma_key_cmp_flip(a[c as int], b[c as int]);
                lemma_rows_cmp_flip(keys.drop_first(), a, b);
            },
        }
    }
}

/// The chain's comparison composes transitively; in particular `row_le`
/// is transitive.
pub proof fn lemma_rows_cmp_trans(
    keys: Seq<Option<usize>>,
    a: Seq<Seq<char>>,
    b: Seq<Seq<char>>,
    c: Seq<Seq<char>>,
)
    ensures
        rows_cmp(keys, a, b) == Ordering::Less && rows_cmp(keys, b, c) == Ordering::Less
            ==> rows_cmp(keys, a, c) == Ordering::Less,
        rows_cmp(keys, a, b) == Ordering::Less && rows_cmp(keys, b, c) == Ordering::Equal
            ==> rows_cmp(keys, a, c) == Ordering::Less,
        rows_cmp(keys, a, b) == Ordering::Equal && rows_cmp(keys, b, c) == Ordering::Less
            ==> rows_cmp(keys, a, c) == Ordering::Less,
        rows_cmp(keys, a, b) == Ordering::Equal && rows_cmp(keys, b, c) == Ordering::Equal
            ==> rows_cmp(keys, a, c) == Ordering::Equal,
        row_le(keys, a, b) && row_le(keys, b, c) ==> row_le(keys, a, c),
    decreases keys.len(),
{
    if keys.len() > 0 {
        match keys[0] {
            None => {},
            Some(col) => {
                lemma_key_cmp_trans(a[col as int], b[col as int], c[col as int]);
                lemma_key_cmp_flip(a[col as int], b[col as int]);
                lemma_key_cmp_flip(b[col as int], c[col as int]);
                lemma_key_cmp_flip(a[col as int], c[col as int]);
                lemma_rows_cmp_trans(keys.drop_first(), a, b, c);
            },
        }
    }
}

/// Every row of the table is as wide as `n`.
pub open spec fn rows_len(s: Seq<Seq<Seq<char>>>, n: int) -> bool {
    forall|i: int| 0 <= i < s.len() ==> (#[trigger] s[i]).len() == n
}

/// Every sort key stays inside every row of the table.
pub open spec fn keys_fit_rows(keys: Seq<Option<usize>>, s: Seq<Seq<Seq<char>>>) -> bool {
    forall|i: int| 0 <= i < s.len() ==> sort_columns_wf(keys, (#[trigger] s[i]).len() as int)
}

/// The table is sorted under the keys: no row sorts after a later one.
pub open spec fn rows_sorted(keys: Seq<Option<usize>>, s: Seq<Seq<Seq<char>>>) -> bool {
    forall|i: int, j: int| 0 <= i < j < s.len() ==> row_le(keys, #[trigger] s[i], #[trigger] s[j])
}

/// Insertion of a row into a table: the row goes in front of the first
/// row that sorts strictly after it.
pub open spec fn sorted_insert(
    keys: Seq<Option<usize>>,
    x: Seq<Seq<char>>,
    s: Seq<Seq<Seq<char>>>,
) -> Seq<Seq<Seq<char>>>
    decreases s.len(),
{
    if s.len() == 0 {
        seq![x]
    } else if row_le(keys, s[0], x) {
        seq![s[0]] + sorted_insert(keys, x, s.drop_first())
    } else {
        seq![x] + s
    }
}

/// The sorted order of a table: each row inserted, in order, into the
/// sorted order of the rows before it.
pub open spec fn sort_rows(keys: Seq<Option<usize>>, s: Seq<Seq<Seq<char>>>) -> Seq<Seq<Seq<char>>>
    decreases s.len(),
{
    if s.len() == 0 {
        Seq::empty()
    } else {
        sorted_insert(keys, s.last(), sort_rows(keys, s.drop_last()))
    }
}

/// Inserting at the first position whose row sorts strictly after `x`
/// is exactly `sorted_insert`.
proof fn lemma_sorted_insert_at(
    keys: Seq<Option<usize>>,
    x: Seq<Seq<char>>,
    s: Seq<Seq<Seq<char>>>,
    j: int,
)
    requires
        0 <= j <= s.len(),
        forall|k: int| 0 <= k < j ==> row_le(keys, #[trigger] s[k], x),
        j < s.len() ==> !row_le(keys, s[j], x),
    ensures
        sorted_insert(keys, x, s) == s.insert(j, x),
    decreases j,
{
    if j == 0 {
        if s.len() == 0 {
            assert(s.insert(0, x) =~= seq![x]);
        } else {
            assert(s.insert(0, x) =~= seq![x] + s);
        }
    } else {
        assert(row_le(keys, s[0], x));
        lemma_sorted_insert_at(keys, x, s.drop_first(), j - 1);
        assert(s.insert(j, x) =~= seq![s[0]] + s.drop_first().insert(j - 1, x));
    }
}

/// Every row of the inserted table is the new row or one of the old ones.
proof fn lemma_sorted_insert_index(keys: Seq<Option<usize>>, x: Seq<Seq<char>>, s: Seq<Seq<Seq<char>>>)
    ensures
        sorted_insert(keys, x, s).len() == s.len() + 1,
        forall|i: int|
            0 <= i < sorted_insert(keys, x, s).len() ==> (#[trigger] sorted_insert(keys, x, s)[i]
                == x || s.contains(sorted_insert(keys, x, s)[i])),
    decreases s.len(),
{
    let out = sorted_insert(keys, x, s);
    if s.len() == 0 {
    } else if row_le(keys, s[0], x) {
        lemma_sorted_insert_index(keys, x, s.drop_first());
        let rec = sorted_insert(keys, x, s.drop_first());
        assert forall|i: int| 0 <= i < out.len() implies (out[i] == x || s.contains(out[i])) by {
            if i == 0 {
                assert(out[0] == s[0]);
                assert(s.contains(s[0]));
            } else {
                assert(out[i] == rec[i - 1]);
                if rec[i - 1] != x {
                    let k = choose|k: int|
                        0 <= k < s.drop_first().len() && s.drop_first()[k] == rec[i - 1];
                    assert(s[k + 1] == rec[i - 1]);
                    assert(s.contains(s[k + 1]));
                }
            }
        }
    } else {
        assert forall|i: int| 0 <= i < out.len() implies (out[i] == x || s.contains(out[i])) by {
            if i > 0 {
                assert(out[i] == s[i - 1]);
                assert(s.contains(s[i - 1]));
            }
        }
    }
}

/// Inserting into a table keeps its multiset of rows, plus the new row.
proof fn lemma_sorted_insert_multiset(
    keys: Seq<Option<usize>>,
    x: Seq<Seq<char>>,
    s: Seq<Seq<Seq<char>>>,
)
    ensures
        sorted_insert(keys, x, s).to_multiset() =~= s.to_multiset().insert(x),
        sorted_insert(keys, x, s).len() == s.len() + 1,
    decreases s.len(),
{
    broadcast use vstd::seq_lib::group_to_multiset_ensures;

    if s.len() == 0 {
        assert(seq![x] =~= s.push(x));
    } else if row_le(keys, s[0], x) {
        lemma_sorted_insert_multiset(keys, x, s.drop_first());
        let rec = sorted_insert(keys, x, s.drop_first());
        vstd::seq_lib::lemma_multiset_commutative(seq![s[0]], rec);
        vstd::seq_lib::lemma_multiset_commutative(seq![s[0]], s.drop_first());
        assert(seq![s[0]] + s.drop_first() =~= s);
    } else {
        vstd::seq_lib::lemma_multiset_commutative(seq![x], s);
        assert(seq![x] =~= Seq::<Seq<Seq<char>>>::empty().push(x));
        assert(Seq::<Seq<Seq<char>>>::empty().push(x).to_multiset() =~= Seq::<
            Seq<Seq<char>>,
        >::empty().to_multiset().insert(x));
    }
}

/// Inserting into a sorted table keeps it sorted.
proof fn lemma_sorted_insert_sorted(
    keys: Seq<Option<usize>>,
    x: Seq<Seq<char>>,
    s: Seq<Seq<Seq<char>>>,
)
    requires
        rows_sorted(keys, s),
    ensures
        rows_sorted(keys, sorted_insert(keys, x, s)),
    decreases s.len(),
{
    let out = sorted_insert(keys, x, s);
    if s.len() == 0 {
    } else if row_le(keys, s[0], x) {
        assert(rows_sorted(keys, s.drop_first()));
        lemma_sorted_insert_sorted(keys, x, s.drop_first());
        lemma_sorted_insert_index(keys, x, s.drop_first());
        let rec = sorted_insert(keys, x, s.drop_first());
        assert forall|i: int, j: int| 0 <= i < j < out.len() implies row_le(
            keys,
            out[i],
            out[j],
        ) by {
            if i == 0 {
                assert(out[j] == rec[j - 1]);
                if rec[j - 1] == x {
                    assert(row_le(keys, s[0], x));
                } else {
                    let k = choose|k: int|
                        0 <= k < s.drop_first().len() && s.drop_first()[k] == rec[j - 1];
                    assert(s[k + 1] == rec[j - 1]);
                    assert(row_le(keys, s[0], s[k + 1]));
                }
            } else {
                assert(out[i] == rec[i - 1]);
                assert(out[j] == rec[j - 1]);
            }
        }
    } else {
        lemma_rows_cmp_flip(keys, s[0], x);
        assert forall|i: int, j: int| 0 <= i < j < out.len() implies row_le(
            keys,
            out[i],
            out[j],
        ) by {
            if i == 0 {
                assert(out[j] == s[j - 1]);
                if j - 1 > 0 {
                    assert(row_le(keys, s[0], s[j - 1]));
                }
                lemma_rows_cmp_trans(keys, x, s[0], s[j - 1]);
            } else {
                assert(out[i] == s[i - 1]);
                assert(out[j] == s[j - 1]);
            }
        }
    }
}

/// Sorting reorders the table's rows and loses or invents none: the
/// multiset of rows, and so also the row count, is preserved.
pub proof fn lemma_sort_rows_permutes(keys: Seq<Option<usize>>, s: Seq<Seq<Seq<char>>>)
    ensures
        sort_rows(keys, s).to_multiset() =~= s.to_multiset(),
        sort_rows(keys, s).len() == s.len(),
    decreases s.len(),
{
    broadcast use vstd::seq_lib::group_to_multiset_ensures;

    if s.len() > 0 {
        lemma_sort_rows_permutes(keys, s.drop_last());
        lemma_sorted_insert_multiset(keys, s.last(), sort_rows(keys, s.drop_last()));
        assert(s.drop_last().push(s.last()) =~= s);
    }
}

/// What the sort returns is sorted under the keys.
pub proof fn lemma_sort_rows_sorted(keys: Seq<Option<usize>>, s: Seq<Seq<Seq<char>>>)
    ensures
        rows_sorted(keys, sort_rows(keys, s)),
    decreases s.len(),
{
    if s.len() > 0 {
        lemma_sort_rows_sorted(keys, s.drop_last());
        lemma_sorted_insert_sorted(keys, s.last(), sort_rows(keys, s.drop_last()));
    }
}

/// Sorting keeps every row's width.
pub proof fn lemma_sort_rows_len(keys: Seq<Option<usize>>, s: Seq<Seq<Seq<char>>>, n: int)
    requires
        rows_len(s, n),
    ensures
        rows_len(sort_rows(keys, s), n),
{
    broadcast use vstd::seq_lib::group_to_multiset_ensures;

    let out = sort_rows(keys, s);
    lemma_sort_rows_permutes(keys, s);
    assert forall|i: int| 0 <= i < out.len() implies (#[trigger] out[i]).len() == n by {
        assert(out.contains(out[i]));
        assert(out.to_multiset().count(out[i]) > 0);
        assert(s.to_multiset().count(out[i]) > 0);
        assert(s.contains(out[i]));
        let k = choose|k: int| 0 <= k < s.len() && s[k] == out[i];
        assert(s[k].len() == n);
    }
}

/// The position in front of the first row that sorts strictly after `x`.
fn find_insert_pos(keys: &Vec<Option<usize>>, rows: &Vec<Vec<String>>, x: &Vec<String>) -> (j:
    usize)
    requires
        keys_fit_rows(keys@, rows.deep_view()),
        sort_columns_wf(keys@, x@.len() as int),
    ensures
        j <= rows@.len(),
        forall|k: int| 0 <= k < j ==> row_le(keys@, #[trigger] rows.deep_view()[k], x.deep_view()),
        j < rows@.len() ==> !row_le(keys@, rows.deep_view()[j as int], x.deep_view()),
{
    let mut j: usize = 0;
    while j < rows.len()
        invariant
            j <= rows@.len(),
            keys_fit_rows(keys@, rows.deep_view()),
            sort_columns_wf(keys@, x@.len() as int),
            forall|k: int| 0 <= k < j ==> row_le(keys@, #[trigger] rows.deep_view()[k], x.deep_view()),
        decreases rows@.len() - j,
    {
        proof {
            assert(sort_columns_wf(keys@, (rows.deep_view()[j as int]).len() as int));
            assert(rows.deep_view()[j as int].len() == rows@[j as int]@.len());
        }
        let o = compare_rows(keys, &rows[j], x);
        if matches!(o, Ordering::Greater) {
            return j;
        }
        j = j + 1;
    }
    j
}

/// Inserts a row into a table at its sorted position.
fn insert_row_sorted(keys: &Vec<Option<usize>>, rows: &mut Vec<Vec<String>>, x: Vec<String>)
    requires
        keys_fit_rows(keys@, old(rows).deep_view()),
        sort_columns_wf(keys@, x@.len() as int),
    ensures
        final(rows).deep_view() == sorted_insert(keys@, x.deep_view(), old(rows).deep_view()),
        keys_fit_rows(keys@, final(rows).deep_view()),
{
    let ghost rdv = rows.deep_view();
    let ghost xdv = x.deep_view();
    let j = find_insert_pos(keys, rows, &x);
    proof {
        lemma_sorted_insert_at(keys@, xdv, rdv, j as int);
        rdv.insert_ensures(j as int, xdv);
    }
    rows.insert(j, x);
    proof {
        assert(rows.deep_view() =~= rdv.insert(j as int, xdv));
        assert forall|i: int| 0 <= i < rows.deep_view().len() implies sort_columns_wf(
            keys@,
            (#[trigger] rows.deep_view()[i]).len() as int,
        ) by {
            if i < j {
                assert(rows.deep_view()[i] == rdv[i]);
            } else if i == j {
                assert(rows.deep_view()[i] == xdv);
            } else {
                assert(rows.deep_view()[i] == rdv[i - 1]);
            }
        }
    }
}

/// Sorts a table's rows under the sort keys, proved against `sort_rows`.
pub fn sort_table(keys: &Vec<Option<usize>>, rows: &Vec<Vec<String>>) -> (out: Vec<Vec<String>>)
    requires
        keys_fit_rows(keys@, rows.deep_view()),
    ensures
        out.deep_view() == sort_rows(keys@, rows.deep_view()),
{
    let ghost rdv = rows.deep_view();
    let mut out: Vec<Vec<String>> = Vec::new();
    let mut i: usize = 0;
    proof {
        assert(rdv.take(0) =~= Seq::<Seq<Seq<char>>>::empty());
        assert(out.deep_view() =~= Seq::<Seq<Seq<char>>>::empty());
    }
    while i < rows.len()
        invariant
            i <= rows@.len(),
            rdv == rows.deep_view(),
            keys_fit_rows(keys@, rdv),
            out.deep_view() == sort_rows(keys@, rdv.take(i as int)),
            keys_fit_rows(keys@, out.deep_view()),
        decreases rows@.len() - i,
    {
        let x = clone_row(&rows[i]);
        proof {
            assert(x.deep_view() == rdv[i as int]);
            assert(sort_columns_wf(keys@, x@.len() as int));
        }
        insert_row_sorted(keys, &mut out, x);
        i = i + 1;
        proof {
            assert(rdv.take(i as int).drop_last() =~= rdv.take(i as int - 1));
            assert(rdv.take(i as int).last() == rdv[i as int - 1]);
        }
    }
    proof {
        assert(rdv.take(rows@.len() as int) =~= rdv);
    }
    out
}

/// Empty cells sort last: on a sort key whose column is empty in one row
/// and non-empty in the other, the row with the empty cell comes after,
/// whatever the remaining keys and cells hold.
pub proof fn lemma_empty_sorts_last(
    keys: Seq<Option<usize>>,
    c: usize,
    a: Seq<Seq<char>>,
    b: Seq<Seq<char>>,
)
    requires
        keys.len() > 0,
        keys[0] == Some(c),
        a[c as int].len() == 0,
        b[c as int].len() > 0,
    ensures
        rows_cmp(keys, a, b) == Ordering::Greater,
        rows_cmp(keys, b, a) == Ordering::Less,
{
}

/// An unset sort key ends the comparison: the chain compares exactly as
/// its prefix before the unset key, so later keys are never consulted.
pub proof fn lemma_unset_key_terminates(
    keys: Seq<Option<usize>>,
    i: int,
    a: Seq<Seq<char>>,
    b: Seq<Seq<char>>,
)
    requires
        0 <= i < keys.len(),
        keys[i] is None,
    ensures
        rows_cmp(keys, a, b) == rows_cmp(keys.take(i), a, b),
    decreases i,
{
    if i == 0 {
        assert(keys.take(0) =~= Seq::<Option<usize>>::empty());
    } else {
        assert(keys.take(i)[0] == keys[0]);
        assert(keys.take(i).drop_first() =~= keys.drop_first().take(i - 1));
        lemma_unset_key_terminates(keys.drop_first(), i - 1, a, b);
    }
}

} // verus!
