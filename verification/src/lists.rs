//! Lists of records: their contents, searching and stable sorting.

use vstd::prelude::*;

use crate::text;

verus! {

/// The contents of a list of records.
pub open spec fn views<T: View>(v: Seq<T>) -> Seq<T::V> {
    Seq::new(v.len(), |i: int| v[i]@)
}

/// The contents of an optional record.
pub open spec fn opt_view<T: View>(o: Option<T>) -> Option<T::V> {
    match o {
        Some(x) => Some(x@),
        None => None,
    }
}

/// The text of an optional string.
pub open spec fn opt_text(o: Option<String>) -> Option<Seq<char>> {
    match o {
        Some(s) => Some(s@),
        None => None,
    }
}

/// Copies an optional string.
pub fn copy_text(o: &Option<String>) -> (r: Option<String>)
    ensures
        opt_text(r) == opt_text(*o),
{
    match o {
        Some(s) => Some(s.clone()),
        None => None,
    }
}

/// Adding a record to a list adds its contents to the contents.
pub proof fn lemma_views_push<T: View>(v: Seq<T>, x: T)
    ensures
        views(v.push(x)) == views(v).push(x@),
{
    assert(views(v.push(x)) =~= views(v).push(x@));
}

/// Records that come in an order.
pub trait Ordered: View + Sized {
    /// Whether a record comes strictly before another.
    spec fn less(a: Self::V, b: Self::V) -> bool;

    /// Tests whether this record comes strictly before another.
    fn before(&self, other: &Self) -> (r: bool)
        ensures
            r == Self::less(self@, other@),
            r ==> !Self::less(other@, self@),
    ;
}

/// Whether no record of a list comes before the one it follows.
pub open spec fn in_order<T: Ordered>(s: Seq<T::V>) -> bool {
    forall|i: int, j: int|
        0 <= i && j == i + 1 && j < s.len() ==> !T::less(#[trigger] s[j], #[trigger] s[i])
}

/// A list with one more record, behind all that it does not come before.
pub open spec fn inserted<T: Ordered>(s: Seq<T::V>, x: T::V) -> Seq<T::V>
    decreases s.len(),
{
    if s.len() == 0 || !T::less(x, s.last()) {
        s.push(x)
    } else {
        inserted::<T>(s.drop_last(), x).push(s.last())
    }
}

/// A list in order, with records that neither comes before the other left as
/// they stood.
pub open spec fn sorted<T: Ordered>(s: Seq<T::V>) -> Seq<T::V>
    decreases s.len(),
{
    if s.len() == 0 {
        s
    } else {
        inserted::<T>(sorted::<T>(s.drop_last()), s.last())
    }
}

proof fn lemma_inserted_at<T: Ordered>(s: Seq<T::V>, x: T::V, p: int)
    requires
        0 <= p <= s.len(),
        forall|k: int| p <= k < s.len() ==> T::less(x, #[trigger] s[k]),
        p > 0 ==> !T::less(x, s[p - 1]),
    ensures
        inserted::<T>(s, x) == s.insert(p, x),
    decreases s.len(),
{
    if s.len() == p {
        if s.len() > 0 {
            assert(s.last() == s[p - 1]);
        }
        assert(s.push(x) =~= s.insert(p, x));
    } else {
        assert(s.last() == s[s.len() - 1]);
        lemma_inserted_at::<T>(s.drop_last(), x, p);
        assert(s.drop_last().insert(p, x).push(s.last()) =~= s.insert(p, x));
    }
}

proof fn lemma_inserted_multiset<T: Ordered>(s: Seq<T::V>, x: T::V)
    ensures
        inserted::<T>(s, x).to_multiset() == s.to_multiset().insert(x),
    decreases s.len(),
{
    if s.len() == 0 || !T::less(x, s.last()) {
        vstd::seq_lib::to_multiset_build(s, x);
    } else {
        lemma_inserted_multiset::<T>(s.drop_last(), x);
        vstd::seq_lib::to_multiset_build(inserted::<T>(s.drop_last(), x), s.last());
        vstd::seq_lib::to_multiset_build(s.drop_last(), s.last());
        assert(s.drop_last().push(s.last()) =~= s);
        assert(inserted::<T>(s, x).to_multiset() =~= s.to_multiset().insert(x));
    }
}

/// Sorting neither adds nor drops a record.
pub proof fn law_sorting_keeps_records<T: Ordered>(s: Seq<T::V>)
    ensures
        sorted::<T>(s).to_multiset() == s.to_multiset(),
    decreases s.len(),
{
    if s.len() > 0 {
        law_sorting_keeps_records::<T>(s.drop_last());
        lemma_inserted_multiset::<T>(sorted::<T>(s.drop_last()), s.last());
        vstd::seq_lib::to_multiset_build(s.drop_last(), s.last());
        assert(s.drop_last().push(s.last()) =~= s);
    }
}

/// Puts a list in order, stably.
pub fn sort<T: Ordered>(v: Vec<T>) -> (r: Vec<T>)
    ensures
        views(r@) == sorted::<T>(views(v@)),
        r@.to_multiset() == v@.to_multiset(),
        in_order::<T>(views(r@)),
{
    let ghost all = v@;
    let mut out: Vec<T> = Vec::new();
    assert(views(all).take(0) =~= seq![]);
    assert(all.take(0) =~= seq![]);
    for x in it: v
        invariant
            it.seq() == all,
            views(out@) == sorted::<T>(views(all).take(it.index() as int)),
            out@.to_multiset() == all.take(it.index() as int).to_multiset(),
            in_order::<T>(views(out@)),
    {
        let ghost done = it.index() as int;
        let ghost held = views(out@);
        let mut p: usize = out.len();
        while p > 0 && x.before(&out[p - 1])
            invariant
                p <= out.len(),
                held == views(out@),
                forall|k: int| p <= k < held.len() ==> T::less(x@, #[trigger] held[k]),
                forall|k: int| p <= k < held.len() ==> !T::less(#[trigger] held[k], x@),
            decreases p,
        {
            assert(held[p - 1] == out@[p - 1]@);
            p -= 1;
        }
        proof {
            assert(p > 0 ==> held[p - 1] == out@[p - 1]@);
            lemma_inserted_at::<T>(held, x@, p as int);
            text::lemma_take_step(views(all), done);
            text::lemma_take_step(all, done);
            out@.insert_ensures(p as int, x);
            vstd::seq_lib::to_multiset_insert(out@, p as int, x);
            vstd::seq_lib::to_multiset_build(all.take(done), all[done]);
        }
        out.insert(p, x);
        assert(views(out@) =~= held.insert(p as int, x@));
        assert(in_order::<T>(views(out@))) by {
            let now = views(out@);
            assert forall|i: int, j: int|
                0 <= i && j == i + 1 && j < now.len() implies !T::less(
                #[trigger] now[j],
                #[trigger] now[i],
            ) by {
                if j < p {
                    assert(now[i] == held[i] && now[j] == held[j]);
                } else if j == p {
                    assert(now[i] == held[p - 1]);
                } else if i == p {
                    assert(now[j] == held[p as int]);
                } else {
                    assert(now[i] == held[i - 1] && now[j] == held[j - 1]);
                }
            }
        }
    }
    assert(all.take(all.len() as int) =~= all);
    assert(views(all).take(all.len() as int) =~= views(all));
    out
}

proof fn lemma_inserted_in_order<T: Ordered>(s: Seq<T::V>, x: T::V)
    requires
        in_order::<T>(s),
        forall|a: T::V, b: T::V| #[trigger] T::less(a, b) ==> !T::less(b, a),
    ensures
        in_order::<T>(inserted::<T>(s, x)),
        inserted::<T>(s, x).len() == s.len() + 1,
        inserted::<T>(s, x).last() == x || (s.len() > 0 && inserted::<T>(s, x).last() == s.last()),
    decreases s.len(),
{
    let r = inserted::<T>(s, x);
    if s.len() == 0 || !T::less(x, s.last()) {
        assert forall|i: int, j: int| 0 <= i && j == i + 1 && j < r.len() implies !T::less(
            #[trigger] r[j],
            #[trigger] r[i],
        ) by {
            if j < s.len() {
                assert(r[i] == s[i] && r[j] == s[j]);
            } else {
                assert(r[i] == s.last());
            }
        }
    } else {
        let front = s.drop_last();
        assert forall|i: int, j: int| 0 <= i && j == i + 1 && j < front.len() implies !T::less(
            #[trigger] front[j],
            #[trigger] front[i],
        ) by {
            assert(front[i] == s[i] && front[j] == s[j]);
        }
        lemma_inserted_in_order::<T>(front, x);
        let head = inserted::<T>(front, x);
        assert forall|i: int, j: int| 0 <= i && j == i + 1 && j < r.len() implies !T::less(
            #[trigger] r[j],
            #[trigger] r[i],
        ) by {
            if j < head.len() {
                assert(r[i] == head[i] && r[j] == head[j]);
            } else {
                assert(r[i] == head.last());
                assert(r[j] == s[s.len() - 1]);
                if front.len() > 0 {
                    assert(front.last() == s[s.len() - 2]);
                }
            }
        }
    }
}

/// Sorting puts a list in order, as long as no two records come before each
/// other.
pub proof fn law_sorted_is_in_order<T: Ordered>(s: Seq<T::V>)
    requires
        forall|a: T::V, b: T::V| #[trigger] T::less(a, b) ==> !T::less(b, a),
    ensures
        in_order::<T>(sorted::<T>(s)),
        sorted::<T>(s).len() == s.len(),
    decreases s.len(),
{
    if s.len() > 0 {
        law_sorted_is_in_order::<T>(s.drop_last());
        lemma_inserted_in_order::<T>(sorted::<T>(s.drop_last()), s.last());
    }
}

/// A list that is in order already stays as it is.
pub proof fn law_sorting_keeps_a_sorted_list<T: Ordered>(s: Seq<T::V>)
    requires
        in_order::<T>(s),
    ensures
        sorted::<T>(s) == s,
    decreases s.len(),
{
    if s.len() > 0 {
        let front = s.drop_last();
        assert forall|i: int, j: int| 0 <= i && j == i + 1 && j < front.len() implies !T::less(
            #[trigger] front[j],
            #[trigger] front[i],
        ) by {
            assert(front[i] == s[i] && front[j] == s[j]);
        }
        law_sorting_keeps_a_sorted_list::<T>(front);
        if front.len() > 0 {
            assert(front.last() == s[s.len() - 2]);
            assert(s.last() == s[s.len() - 1]);
        }
        assert(front.push(s.last()) =~= s);
    }
}

} // verus!
