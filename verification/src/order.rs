//! Lexicographic ordering of character sequences by code point, with the
//! laws that make it usable as a sort comparator.

use core::cmp::Ordering;
use vstd::prelude::*;

verus! {

/// Lexicographic three-way comparison of two character sequences by
/// code point; a proper prefix comes first.
pub open spec fn chars_cmp(a: Seq<char>, b: Seq<char>) -> Ordering
    decreases a.len(),
{
    if a.len() == 0 && b.len() == 0 {
        Ordering::Equal
    } else if a.len() == 0 {
        Ordering::Less
    } else if b.len() == 0 {
        Ordering::Greater
    } else if (a[0] as u32) < (b[0] as u32) {
        Ordering::Less
    } else if (b[0] as u32) < (a[0] as u32) {
        Ordering::Greater
    } else {
        chars_cmp(a.drop_first(), b.drop_first())
    }
}

/// Three-way comparison of two character vectors, proved against
/// `chars_cmp`.
pub fn cmp_chars(a: &Vec<char>, b: &Vec<char>) -> (r: Ordering)
    ensures
        r == chars_cmp(a@, b@),
{
    let mut i: usize = 0;
    proof {
        assert(a@.skip(0) =~= a@);
        assert(b@.skip(0) =~= b@);
    }
    while i < a.len() && i < b.len()
        invariant
            i <= a@.len(),
            i <= b@.len(),
            chars_cmp(a@, b@) == chars_cmp(a@.skip(i as int), b@.skip(i as int)),
        decreases a@.len() - i,
    {
        proof {
            assert(a@.skip(i as int)[0] == a@[i as int]);
            assert(b@.skip(i as int)[0] == b@[i as int]);
            assert(a@.skip(i as int).drop_first() =~= a@.skip(i as int + 1));
            assert(b@.skip(i as int).drop_first() =~= b@.skip(i as int + 1));
        }
        let x = a[i] as u32;
        let y = b[i] as u32;
        if x < y {
            return Ordering::Less;
        }
        if y < x {
            return Ordering::Greater;
        }
        i = i + 1;
    }
    if a.len() == b.len() {
        Ordering::Equal
    } else if i == a.len() {
        Ordering::Less
    } else {
        Ordering::Greater
    }
}

/// Comparing a sequence with itself gives `Equal`.
pub proof fn lemma_chars_cmp_refl(a: Seq<char>)
    ensures
        chars_cmp(a, a) == Ordering::Equal,
    decreases a.len(),
{
    if a.len() > 0 {
        lemma_chars_cmp_refl(a.drop_first());
    }
}

/// Swapping the arguments mirrors the verdict.
pub proof fn lemma_chars_cmp_flip(a: Seq<char>, b: Seq<char>)
    ensures
        (chars_cmp(a, b) == Ordering::Less) <==> (chars_cmp(b, a) == Ordering::Greater),
        (chars_cmp(a, b) == Ordering::Equal) <==> (chars_cmp(b, a) == Ordering::Equal),
    decreases a.len(),
{
    if a.len() > 0 && b.len() > 0 {
        lemma_chars_cmp_flip(a.drop_first(), b.drop_first());
    }
}

/// The ordering composes transitively, with `Equal` acting as identity.
pub proof fn lemma_chars_cmp_trans(a: Seq<char>, b: Seq<char>, c: Seq<char>)
    ensures
        chars_cmp(a, b) == Ordering::Less && chars_cmp(b, c) == Ordering::Less ==> chars_cmp(a, c)
            == Ordering::Less,
        chars_cmp(a, b) == Ordering::Less && chars_cmp(b, c) == Ordering::Equal ==> chars_cmp(a, c)
            == Ordering::Less,
        chars_cmp(a, b) == Ordering::Equal && chars_cmp(b, c) == Ordering::Less ==> chars_cmp(a, c)
            == Ordering::Less,
        chars_cmp(a, b) == Ordering::Equal && chars_cmp(b, c) == Ordering::Equal ==> chars_cmp(
            a,
            c,
        ) == Ordering::Equal,
    decreases a.len() + b.len() + c.len(),
{
    if a.len() > 0 && b.len() > 0 && c.len() > 0 {
        lemma_chars_cmp_trans(a.drop_first(), b.drop_first(), c.drop_first());
    }
}

} // verus!
