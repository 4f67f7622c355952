//! Spec functions on sequences that the contracts of this crate share.

use vstd::prelude::*;

verus! {

/// The views of the items, in order.
pub open spec fn views<T: View>(s: Seq<T>) -> Seq<T::V> {
    s.map_values(|t: T| t@)
}

/// The first item that `p` holds of.
pub open spec fn find_first<T>(s: Seq<T>, p: spec_fn(T) -> bool) -> Option<T>
    decreases s.len(),
{
    if s.len() == 0 {
        None
    } else if p(s[0]) {
        Some(s[0])
    } else {
        find_first(s.drop_first(), p)
    }
}

/// The positions of the items that `p` holds of, in ascending order.
pub open spec fn indices_where<T>(s: Seq<T>, p: spec_fn(T) -> bool) -> Seq<int>
    decreases s.len(),
{
    if s.len() == 0 {
        Seq::empty()
    } else {
        let rest = indices_where(s.drop_last(), p);
        if p(s.last()) {
            rest.push(s.len() - 1)
        } else {
            rest
        }
    }
}

/// The sequence without the first item that `p` holds of.
pub open spec fn remove_first<T>(s: Seq<T>, p: spec_fn(T) -> bool) -> Seq<T>
    decreases s.len(),
{
    if s.len() == 0 {
        s
    } else if p(s[0]) {
        s.drop_first()
    } else {
        seq![s[0]] + remove_first(s.drop_first(), p)
    }
}

/// The items, each at its first occurrence alone.
pub open spec fn distinct<T>(s: Seq<T>) -> Seq<T>
    decreases s.len(),
{
    if s.len() == 0 {
        s
    } else {
        let rest = distinct(s.drop_last());
        if rest.contains(s.last()) {
            rest
        } else {
            rest.push(s.last())
        }
    }
}

/// The machine integers as mathematical ones.
pub open spec fn ints(s: Seq<usize>) -> Seq<int> {
    s.map_values(|i: usize| i as int)
}

pub proof fn lemma_find_first_at<T>(s: Seq<T>, p: spec_fn(T) -> bool, i: int)
    requires
        0 <= i < s.len(),
        p(s[i]),
        forall|j: int| 0 <= j < i ==> !p(#[trigger] s[j]),
    ensures
        find_first(s, p) == Some(s[i]),
    decreases s.len(),
{
    if i > 0 {
        assert(!p(s[0]));
        assert forall|j: int| 0 <= j < i - 1 implies !p(#[trigger] s.drop_first()[j]) by {
            assert(s.drop_first()[j] == s[j + 1]);
        }
        lemma_find_first_at(s.drop_first(), p, i - 1);
    }
}

pub proof fn lemma_find_first_none<T>(s: Seq<T>, p: spec_fn(T) -> bool)
    requires
        forall|j: int| 0 <= j < s.len() ==> !p(#[trigger] s[j]),
    ensures
        find_first(s, p) is None,
    decreases s.len(),
{
    if s.len() > 0 {
        assert(!p(s[0]));
        assert forall|j: int| 0 <= j < s.len() - 1 implies !p(#[trigger] s.drop_first()[j]) by {
            assert(s.drop_first()[j] == s[j + 1]);
        }
        lemma_find_first_none(s.drop_first(), p);
    }
}

/// `find_first` gives the item at the least position that `p` holds at, and gives one exactly
/// if there is such a position.
pub proof fn find_first_is_the_first<T>(s: Seq<T>, p: spec_fn(T) -> bool) -> (at: int)
    ensures
        find_first(s, p) is None ==> forall|j: int| 0 <= j < s.len() ==> !p(#[trigger] s[j]),
        find_first(s, p) matches Some(t) ==> {
            &&& 0 <= at < s.len()
            &&& s[at] == t
            &&& p(t)
            &&& forall|j: int| 0 <= j < at ==> !p(#[trigger] s[j])
        },
    decreases s.len(),
{
    if s.len() == 0 {
        0
    } else if p(s[0]) {
        0
    } else {
        let at = find_first_is_the_first(s.drop_first(), p);
        if find_first(s, p) is Some {
            assert forall|j: int| 0 <= j < at + 1 implies !p(#[trigger] s[j]) by {
                if j > 0 {
                    assert(s.drop_first()[j - 1] == s[j]);
                }
            }
        } else {
            assert forall|j: int| 0 <= j < s.len() implies !p(#[trigger] s[j]) by {
                if j > 0 {
                    assert(s.drop_first()[j - 1] == s[j]);
                }
            }
        }
        at + 1
    }
}

/// `indices_where` lists every position that `p` holds at, and no other, in ascending order.
pub proof fn indices_where_is_exact<T>(s: Seq<T>, p: spec_fn(T) -> bool)
    ensures
        forall|k: int|
            0 <= k < indices_where(s, p).len() ==> 0 <= #[trigger] indices_where(s, p)[k] < s.len()
                && p(s[indices_where(s, p)[k]]),
        forall|k: int, l: int|
            0 <= k < l < indices_where(s, p).len() ==> #[trigger] indices_where(s, p)[k]
                < #[trigger] indices_where(s, p)[l],
        forall|i: int|
            0 <= i < s.len() && p(#[trigger] s[i]) ==> indices_where(s, p).contains(i),
    decreases s.len(),
{
    if s.len() > 0 {
        let init = s.drop_last();
        let rest = indices_where(init, p);
        let all = indices_where(s, p);
        indices_where_is_exact(init, p);
        assert forall|k: int| 0 <= k < all.len() implies 0 <= #[trigger] all[k] < s.len() && p(
            s[all[k]],
        ) by {
            if k < rest.len() {
                assert(rest[k] == all[k]);
            }
        }
        assert forall|k: int, l: int| 0 <= k < l < all.len() implies #[trigger] all[k]
            < #[trigger] all[l] by {
            assert(rest[k] == all[k]);
            if l < rest.len() {
                assert(rest[l] == all[l]);
            }
        }
        assert forall|i: int| 0 <= i < s.len() && p(#[trigger] s[i]) implies all.contains(i) by {
            if i < s.len() - 1 {
                assert(init[i] == s[i]);
                let k = choose|k: int| 0 <= k < rest.len() && rest[k] == i;
                assert(all[k] == i);
            } else {
                assert(all.last() == i);
            }
        }
    }
}

pub proof fn lemma_remove_first_at<T>(s: Seq<T>, p: spec_fn(T) -> bool, i: int)
    requires
        0 <= i < s.len(),
        p(s[i]),
        forall|j: int| 0 <= j < i ==> !p(#[trigger] s[j]),
    ensures
        remove_first(s, p) == s.remove(i),
    decreases s.len(),
{
    if i == 0 {
        assert(s.drop_first() =~= s.remove(0));
    } else {
        assert(!p(s[0]));
        assert forall|j: int| 0 <= j < i - 1 implies !p(#[trigger] s.drop_first()[j]) by {
            assert(s.drop_first()[j] == s[j + 1]);
        }
        lemma_remove_first_at(s.drop_first(), p, i - 1);
        assert(seq![s[0]] + s.drop_first().remove(i - 1) =~= s.remove(i));
    }
}

pub proof fn lemma_remove_first_none<T>(s: Seq<T>, p: spec_fn(T) -> bool)
    requires
        forall|j: int| 0 <= j < s.len() ==> !p(#[trigger] s[j]),
    ensures
        remove_first(s, p) == s,
    decreases s.len(),
{
    if s.len() > 0 {
        assert(!p(s[0]));
        assert forall|j: int| 0 <= j < s.len() - 1 implies !p(#[trigger] s.drop_first()[j]) by {
            assert(s.drop_first()[j] == s[j + 1]);
        }
        lemma_remove_first_none(s.drop_first(), p);
        assert(seq![s[0]] + s.drop_first() =~= s);
    }
}

pub proof fn lemma_take_one_more<T>(s: Seq<T>, i: int)
    requires
        0 <= i < s.len(),
    ensures
        s.take(i + 1) == s.take(i).push(s[i]),
        s.take(i + 1).drop_last() == s.take(i),
        s.take(i + 1).last() == s[i],
{
    assert(s.take(i + 1) =~= s.take(i).push(s[i]));
    assert(s.take(i + 1).drop_last() =~= s.take(i));
}

pub proof fn lemma_views_push<T: View>(s: Seq<T>, t: T)
    ensures
        views(s.push(t)) == views(s).push(t@),
{
    assert(views(s.push(t)) =~= views(s).push(t@));
}

pub proof fn lemma_filter_take<T>(s: Seq<T>, p: spec_fn(T) -> bool, i: int)
    requires
        0 <= i < s.len(),
    ensures
        s.take(i + 1).filter(p) == if p(s[i]) {
            s.take(i).filter(p).push(s[i])
        } else {
            s.take(i).filter(p)
        },
{
    lemma_take_one_more(s, i);
    reveal(Seq::filter);
}

pub proof fn lemma_filter_map_take<T, U>(s: Seq<T>, f: spec_fn(T) -> Option<U>, i: int)
    requires
        0 <= i < s.len(),
    ensures
        s.take(i + 1).filter_map(f) == match f(s[i]) {
            Some(u) => s.take(i).filter_map(f).push(u),
            None => s.take(i).filter_map(f),
        },
{
    s.lemma_filter_map_take_succ(f, i);
    match f(s[i]) {
        Some(u) => assert(s.take(i).filter_map(f) + seq![u] =~= s.take(i).filter_map(f).push(u)),
        None => assert(s.take(i).filter_map(f) + seq![] =~= s.take(i).filter_map(f)),
    }
}

/// `distinct` leaves out repetitions and nothing else.
pub proof fn distinct_is_exact<T>(s: Seq<T>)
    ensures
        distinct(s).no_duplicates(),
        forall|t: T| distinct(s).contains(t) <==> s.contains(t),
    decreases s.len(),
{
    if s.len() > 0 {
        let init = s.drop_last();
        let rest = distinct(init);
        distinct_is_exact(init);
        assert forall|t: T| distinct(s).contains(t) <==> s.contains(t) by {
            if s.contains(t) {
                let i = choose|i: int| 0 <= i < s.len() && s[i] == t;
                if i < s.len() - 1 {
                    assert(init[i] == t);
                    assert(init.contains(t));
                    assert(rest.contains(t));
                    let k = choose|k: int| 0 <= k < rest.len() && rest[k] == t;
                    assert(distinct(s)[k] == t);
                } else if !rest.contains(t) {
                    assert(distinct(s).last() == t);
                }
            }
            if distinct(s).contains(t) {
                let k = choose|k: int| 0 <= k < distinct(s).len() && distinct(s)[k] == t;
                if k < rest.len() {
                    assert(rest[k] == t);
                    assert(init.contains(t));
                    let i = choose|i: int| 0 <= i < init.len() && init[i] == t;
                    assert(s[i] == t);
                } else {
                    assert(s.last() == t);
                }
            }
        }
    }
}

/// What is left after the removal was there before.
pub proof fn lemma_remove_first_elements<T>(s: Seq<T>, p: spec_fn(T) -> bool)
    ensures
        forall|i: int|
            0 <= i < remove_first(s, p).len() ==> s.contains(#[trigger] remove_first(s, p)[i]),
        remove_first(s, p).len() <= s.len(),
    decreases s.len(),
{
    if s.len() > 0 && !p(s[0]) {
        let rest = s.drop_first();
        lemma_remove_first_elements(rest, p);
        assert forall|i: int| 0 <= i < remove_first(s, p).len() implies s.contains(
            #[trigger] remove_first(s, p)[i],
        ) by {
            if i > 0 {
                let t = remove_first(rest, p)[i - 1];
                assert(rest.contains(t));
                let k = choose|k: int| 0 <= k < rest.len() && rest[k] == t;
                assert(s[k + 1] == t);
            } else {
                assert(s[0] == remove_first(s, p)[0]);
            }
        }
    } else if s.len() > 0 {
        assert forall|i: int| 0 <= i < remove_first(s, p).len() implies s.contains(
            #[trigger] remove_first(s, p)[i],
        ) by {
            assert(s[i + 1] == s.drop_first()[i]);
        }
    }
}

pub proof fn lemma_filter_map_last<T, U>(s: Seq<T>, f: spec_fn(T) -> Option<U>)
    requires
        s.len() > 0,
    ensures
        s.filter_map(f) == match f(s.last()) {
            Some(u) => s.drop_last().filter_map(f).push(u),
            None => s.drop_last().filter_map(f),
        },
{
    lemma_filter_map_take(s, f, s.len() - 1);
    assert(s.take(s.len() as int) =~= s);
    assert(s.take(s.len() - 1) =~= s.drop_last());
}

pub proof fn lemma_filter_all<T>(s: Seq<T>, p: spec_fn(T) -> bool)
    ensures
        (forall|i: int| 0 <= i < s.len() ==> p(#[trigger] s[i])) ==> s.filter(p) == s,
        (forall|i: int| 0 <= i < s.len() ==> !p(#[trigger] s[i])) ==> s.filter(p).len() == 0,
    decreases s.len(),
{
    reveal(Seq::filter);
    if s.len() > 0 {
        let init = s.drop_last();
        lemma_filter_all(init, p);
        assert(s[s.len() - 1] == s.last());
        assert(forall|i: int| 0 <= i < init.len() ==> init[i] == s[i]);
        assert(init.push(s.last()) =~= s);
    } else {
        assert(s.filter(p) =~= s);
    }
}

/// A filter keeps the items that `p` holds of, and no others.
pub proof fn lemma_filter_is_exact<T>(s: Seq<T>, p: spec_fn(T) -> bool, t: T)
    ensures
        s.filter(p).contains(t) <==> s.contains(t) && p(t),
{
    if s.filter(p).contains(t) {
        let k = choose|k: int| 0 <= k < s.filter(p).len() && s.filter(p)[k] == t;
        s.lemma_filter_pred(p, k);
        s.lemma_filter_contains_rev(p, t);
    }
    if s.contains(t) && p(t) {
        let i = choose|i: int| 0 <= i < s.len() && s[i] == t;
        s.lemma_filter_contains(p, i);
    }
}

/// What comes out of a `filter_map` is what some item was mapped to.
pub proof fn lemma_filter_map_is_exact<T, U>(s: Seq<T>, f: spec_fn(T) -> Option<U>, u: U)
    ensures
        s.filter_map(f).contains(u) <==> exists|i: int|
            0 <= i < s.len() && f(#[trigger] s[i]) == Some(u),
    decreases s.len(),
{
    if s.len() > 0 {
        let init = s.drop_last();
        lemma_filter_map_is_exact(init, f, u);
        lemma_filter_map_last(s, f);
        let rest = init.filter_map(f);
        let all = s.filter_map(f);
        if all.contains(u) {
            let k = choose|k: int| 0 <= k < all.len() && all[k] == u;
            if k < rest.len() {
                assert(rest[k] == u);
                let i = choose|i: int| 0 <= i < init.len() && f(#[trigger] init[i]) == Some(u);
                assert(f(s[i]) == Some(u));
            } else {
                assert(f(s[s.len() - 1]) == Some(u));
            }
        }
        if exists|i: int| 0 <= i < s.len() && f(#[trigger] s[i]) == Some(u) {
            let i = choose|i: int| 0 <= i < s.len() && f(#[trigger] s[i]) == Some(u);
            if i < init.len() {
                assert(f(init[i]) == Some(u));
                let k = choose|k: int| 0 <= k < rest.len() && rest[k] == u;
                assert(all[k] == u);
            } else {
                assert(all[all.len() - 1] == u);
            }
        }
    }
}

/// What comes later adds to the distinct items and takes nothing away: each stands where it
/// occurred first.
pub proof fn distinct_items_stay_where_they_occurred_first<T>(s: Seq<T>, t: T)
    ensures
        s.contains(t) ==> distinct(s.push(t)) == distinct(s),
        !s.contains(t) ==> distinct(s.push(t)) == distinct(s).push(t),
{
    assert(s.push(t).drop_last() =~= s);
    distinct_is_exact(s);
}

} // verus!
