//! The order of texts, and sorting.

use vstd::prelude::*;
use vstd::seq_lib::*;

use crate::text::chars_of;

verus! {

/// Whether `a` stands before `b` or is the same: character by character, a
/// shorter text before its continuations.
pub open spec fn text_le(a: Seq<char>, b: Seq<char>) -> bool
    decreases a.len(),
{
    if a.len() == 0 {
        true
    } else if b.len() == 0 {
        false
    } else if a[0] != b[0] {
        a[0] < b[0]
    } else {
        text_le(a.drop_first(), b.drop_first())
    }
}

pub proof fn lemma_text_le_total(a: Seq<char>, b: Seq<char>)
    ensures
        text_le(a, b) || text_le(b, a),
    decreases a.len(),
{
    if a.len() > 0 && b.len() > 0 && a[0] == b[0] {
        lemma_text_le_total(a.drop_first(), b.drop_first());
    }
}

pub proof fn lemma_text_le_trans(a: Seq<char>, b: Seq<char>, c: Seq<char>)
    requires
        text_le(a, b),
        text_le(b, c),
    ensures
        text_le(a, c),
    decreases a.len(),
{
    if a.len() > 0 && b.len() > 0 && c.len() > 0 && a[0] == b[0] && b[0] == c[0] {
        lemma_text_le_trans(a.drop_first(), b.drop_first(), c.drop_first());
    }
}

pub proof fn lemma_text_le_antisymmetric(a: Seq<char>, b: Seq<char>)
    requires
        text_le(a, b),
        text_le(b, a),
    ensures
        a == b,
    decreases a.len(),
{
    if a.len() > 0 && b.len() > 0 {
        lemma_text_le_antisymmetric(a.drop_first(), b.drop_first());
        assert(a =~= seq![a[0]] + a.drop_first());
        assert(b =~= seq![b[0]] + b.drop_first());
    } else {
        assert(a =~= b);
    }
}

/// Texts stand in the order of their first characters that differ.
pub proof fn law_texts_stand_by_their_characters(
    p: Seq<char>,
    c: char,
    x: Seq<char>,
    d: char,
    y: Seq<char>,
)
    requires
        c < d,
    ensures
        text_le(p + seq![c] + x, p + seq![d] + y),
        !text_le(p + seq![d] + y, p + seq![c] + x),
    decreases p.len(),
{
    let a = p + seq![c] + x;
    let b = p + seq![d] + y;
    if p.len() > 0 {
        law_texts_stand_by_their_characters(p.drop_first(), c, x, d, y);
        assert(a.drop_first() =~= p.drop_first() + seq![c] + x);
        assert(b.drop_first() =~= p.drop_first() + seq![d] + y);
        assert(a[0] == p[0] && b[0] == p[0]);
    } else {
        assert(a[0] == c && b[0] == d);
    }
}

/// A text stands before what continues it.
pub proof fn law_text_stands_before_its_continuations(p: Seq<char>, x: Seq<char>)
    ensures
        text_le(p, p + x),
        x.len() > 0 ==> !text_le(p + x, p),
    decreases p.len(),
{
    if p.len() > 0 {
        law_text_stands_before_its_continuations(p.drop_first(), x);
        assert((p + x).drop_first() =~= p.drop_first() + x);
    }
}

pub fn text_not_after(a: &str, b: &str) -> (r: bool)
    ensures
        r == text_le(a@, b@),
{
    let ca = chars_of(a);
    let cb = chars_of(b);
    let mut i: usize = 0;
    assert(a@.skip(0) =~= a@);
    assert(b@.skip(0) =~= b@);
    while i < ca.len()
        invariant
            i <= ca.len(),
            i <= cb.len(),
            ca@ == a@,
            cb@ == b@,
            text_le(a@.skip(i as int), b@.skip(i as int)) == text_le(a@, b@),
        decreases ca.len() - i,
    {
        if i >= cb.len() {
            return false;
        }
        if ca[i] != cb[i] {
            return ca[i] < cb[i];
        }
        assert(a@.skip(i as int).drop_first() =~= a@.skip(i + 1));
        assert(b@.skip(i as int).drop_first() =~= b@.skip(i + 1));
        i += 1;
    }
    true
}

/// Values with a total order.
pub trait Ranked: Sized {
    /// Whether `self` may stand before `other`.
    spec fn rank_le(self, other: Self) -> bool;

    proof fn rank_total(a: Self, b: Self)
        ensures
            a.rank_le(b) || b.rank_le(a),
    ;

    proof fn rank_trans(a: Self, b: Self, c: Self)
        requires
            a.rank_le(b),
            b.rank_le(c),
        ensures
            a.rank_le(c),
    ;

    fn not_after(&self, other: &Self) -> (r: bool)
        ensures
            r == self.rank_le(*other),
    ;
}

/// Whether `s` is in order.
pub open spec fn in_order<T: Ranked>(s: Seq<T>) -> bool {
    forall|i: int, j: int| 0 <= i < j < s.len() ==> (#[trigger] s[i]).rank_le(#[trigger] s[j])
}

/// What a list of values says.
pub open spec fn views<T: View>(s: Seq<T>) -> Seq<T::V> {
    s.map_values(|x: T| x@)
}

/// The same values in order.
pub fn sorted<T: Ranked + View>(v: Vec<T>) -> (r: Vec<T>)
    ensures
        in_order(r@),
        views(r@).to_multiset() == views(v@).to_multiset(),
        r@.len() == v@.len(),
{
    let ghost all = views(v@);
    let mut rest = v;
    let mut out: Vec<T> = Vec::new();
    assert(views(out@) + views(rest@) =~= all);
    while rest.len() > 0
        invariant
            in_order(out@),
            (views(out@) + views(rest@)).to_multiset() == all.to_multiset(),
            out@.len() + rest@.len() == all.len(),
        decreases rest@.len(),
    {
        let ghost rest0 = views(rest@);
        let x = rest.remove(0);
        let ghost o = out@;
        let mut k: usize = out.len();
        while k > 0 && !out[k - 1].not_after(&x)
            invariant
                k <= out.len(),
                out@ == o,
                in_order(o),
                forall|j: int| k <= j < o.len() ==> !(#[trigger] o[j]).rank_le(x),
            decreases k,
        {
            k -= 1;
        }
        out.insert(k, x);
        proof {
            lemma_insert_in_order(o, k as int, x);
            lemma_insert_moves(views(o), k as int, x@, views(rest@));
            assert(rest0 =~= seq![x@] + views(rest@));
            assert(views(out@) =~= views(o).insert(k as int, x@));
        }
    }
    assert(views(out@) + views(rest@) =~= views(out@));
    out
}

proof fn lemma_insert_in_order<T: Ranked>(o: Seq<T>, k: int, x: T)
    requires
        in_order(o),
        0 <= k <= o.len(),
        forall|j: int| k <= j < o.len() ==> !(#[trigger] o[j]).rank_le(x),
        k > 0 ==> o[k - 1].rank_le(x),
    ensures
        in_order(o.insert(k, x)),
{
    let n = o.insert(k, x);
    assert forall|i: int, j: int| 0 <= i < j < n.len() implies (#[trigger] n[i]).rank_le(
        #[trigger] n[j],
    ) by {
        if j == k {
            if i < k - 1 {
                T::rank_trans(o[i], o[k - 1], x);
            }
        } else if i == k {
            assert(n[j] == o[j - 1]);
            T::rank_total(x, o[j - 1]);
        } else {
            let a = if i < k {
                i
            } else {
                i - 1
            };
            let b = if j < k {
                j
            } else {
                j - 1
            };
            assert(n[i] == o[a]);
            assert(n[j] == o[b]);
        }
    }
}

proof fn lemma_insert_moves<T>(o: Seq<T>, k: int, x: T, rest: Seq<T>)
    requires
        0 <= k <= o.len(),
    ensures
        (o.insert(k, x) + rest).to_multiset() == (o + (seq![x] + rest)).to_multiset(),
{
    broadcast use {group_to_multiset_ensures, lemma_multiset_commutative};

    let a = o.take(k);
    let b = o.skip(k);
    assert(o.insert(k, x) + rest =~= a + seq![x] + b + rest);
    assert(o + (seq![x] + rest) =~= a + b + seq![x] + rest);
    assert((a + seq![x] + b + rest).to_multiset() =~= (a + b + seq![x] + rest).to_multiset());
}

} // verus!
