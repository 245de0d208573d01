//! Order: putting a list in the order of a rank, and the order of texts.
use crate::text::to_chars;
use vstd::prelude::*;

verus! {

/// A type whose values a list can be put in the order of.
pub trait Ranked: View + Sized {
    /// `a` need not stand behind `b`.
    spec fn le(a: Self::V, b: Self::V) -> bool;

    /// Of two values, one need not stand behind the other.
    proof fn le_total(a: Self::V, b: Self::V)
        ensures
            Self::le(a, b) || Self::le(b, a),
    ;

    proof fn le_transitive(a: Self::V, b: Self::V, c: Self::V)
        requires
            Self::le(a, b),
            Self::le(b, c),
        ensures
            Self::le(a, c),
    ;

    fn not_behind(&self, other: &Self) -> (r: bool)
        ensures
            r == Self::le(self@, other@),
    ;
}

/// The views of the items of a list.
pub open spec fn views<T: View>(s: Seq<T>) -> Seq<T::V> {
    Seq::new(s.len(), |i: int| s[i]@)
}

/// `x` put into the list behind the last item that need not stand behind it.
pub open spec fn placed<T: Ranked>(s: Seq<T::V>, x: T::V) -> Seq<T::V>
    decreases s.len(),
{
    if s.len() == 0 || T::le(s.last(), x) {
        s.push(x)
    } else {
        placed::<T>(s.drop_last(), x).push(s.last())
    }
}

/// The list in the order of its items' rank, items of one rank in the order that they had.
pub open spec fn sorted<T: Ranked>(s: Seq<T::V>) -> Seq<T::V>
    decreases s.len(),
{
    if s.len() == 0 {
        s
    } else {
        placed::<T>(sorted::<T>(s.drop_last()), s.last())
    }
}

/// No item stands before one that it should stand behind.
pub open spec fn in_order<T: Ranked>(s: Seq<T::V>) -> bool {
    forall|i: int, j: int| 0 <= i < j < s.len() ==> T::le(#[trigger] s[i], #[trigger] s[j])
}

/// The items of `s` whose rank is that of `x`, in the order of `s`.
pub open spec fn of_rank<T: Ranked>(s: Seq<T::V>, x: T::V) -> Seq<T::V>
    decreases s.len(),
{
    if s.len() == 0 {
        s
    } else if T::le(s.last(), x) && T::le(x, s.last()) {
        of_rank::<T>(s.drop_last(), x).push(s.last())
    } else {
        of_rank::<T>(s.drop_last(), x)
    }
}

proof fn lemma_placed<T: Ranked>(s: Seq<T::V>, x: T::V)
    ensures
        placed::<T>(s, x).len() == s.len() + 1,
        placed::<T>(s, x).to_multiset() =~= s.to_multiset().insert(x),
    decreases s.len(),
{
    broadcast use vstd::seq_lib::group_to_multiset_ensures;

    if s.len() == 0 || T::le(s.last(), x) {
        assert(s.push(x).to_multiset() =~= s.to_multiset().insert(x));
    } else {
        lemma_placed::<T>(s.drop_last(), x);
        assert(s =~= s.drop_last().push(s.last()));
    }
}

/// Where an item of the longer list comes from.
proof fn lemma_placed_item<T: Ranked>(s: Seq<T::V>, x: T::V, i: int)
    requires
        0 <= i < placed::<T>(s, x).len(),
    ensures
        placed::<T>(s, x)[i] == x || exists|k: int|
            0 <= k < s.len() && placed::<T>(s, x)[i] == #[trigger] s[k],
    decreases s.len(),
{
    lemma_placed::<T>(s, x);
    if s.len() == 0 || T::le(s.last(), x) {
        if i < s.len() {
            assert(s.push(x)[i] == s[i]);
        }
    } else {
        lemma_placed::<T>(s.drop_last(), x);
        if i < s.len() {
            lemma_placed_item::<T>(s.drop_last(), x, i);
            if placed::<T>(s, x)[i] != x {
                let k = choose|k: int|
                    0 <= k < s.drop_last().len() && placed::<T>(s.drop_last(), x)[i]
                        == #[trigger] s.drop_last()[k];
                assert(s[k] == s.drop_last()[k]);
            }
        } else {
            assert(placed::<T>(s, x)[i] == s[s.len() - 1]);
        }
    }
}

proof fn lemma_placed_in_order<T: Ranked>(s: Seq<T::V>, x: T::V)
    requires
        in_order::<T>(s),
    ensures
        in_order::<T>(placed::<T>(s, x)),
    decreases s.len(),
{
    lemma_placed::<T>(s, x);
    let r = placed::<T>(s, x);
    if s.len() == 0 || T::le(s.last(), x) {
        assert forall|i: int, j: int| 0 <= i < j < r.len() implies T::le(
            #[trigger] r[i],
            #[trigger] r[j],
        ) by {
            if j == s.len() && i < s.len() - 1 {
                assert(T::le(s[i], s[s.len() - 1]));
                T::le_transitive(s[i], s.last(), x);
            }
        }
    } else {
        let q = placed::<T>(s.drop_last(), x);
        lemma_placed::<T>(s.drop_last(), x);
        assert(in_order::<T>(s.drop_last())) by {
            assert forall|i: int, j: int| 0 <= i < j < s.drop_last().len() implies T::le(
                #[trigger] s.drop_last()[i],
                #[trigger] s.drop_last()[j],
            ) by {
                assert(T::le(s[i], s[j]));
            }
        }
        lemma_placed_in_order::<T>(s.drop_last(), x);
        T::le_total(x, s.last());
        assert forall|i: int, j: int| 0 <= i < j < r.len() implies T::le(
            #[trigger] r[i],
            #[trigger] r[j],
        ) by {
            assert(r[i] == q[i]);
            if j == s.len() {
                lemma_placed_item::<T>(s.drop_last(), x, i);
                if q[i] != x {
                    let k = choose|k: int|
                        0 <= k < s.drop_last().len() && q[i] == #[trigger] s.drop_last()[k];
                    assert(T::le(s[k], s[s.len() - 1]));
                }
            } else {
                assert(r[j] == q[j]);
            }
        }
    }
}

proof fn lemma_placed_of_rank<T: Ranked>(s: Seq<T::V>, x: T::V, y: T::V)
    requires
        in_order::<T>(s),
    ensures
        of_rank::<T>(placed::<T>(s, x), y) == of_rank::<T>(s.push(x), y),
    decreases s.len(),
{
    assert(s.push(x).drop_last() =~= s);
    if s.len() == 0 || T::le(s.last(), x) {
    } else {
        assert(in_order::<T>(s.drop_last())) by {
            assert forall|i: int, j: int| 0 <= i < j < s.drop_last().len() implies T::le(
                #[trigger] s.drop_last()[i],
                #[trigger] s.drop_last()[j],
            ) by {
                assert(T::le(s[i], s[j]));
            }
        }
        lemma_placed_of_rank::<T>(s.drop_last(), x, y);
        let q = placed::<T>(s.drop_last(), x);
        assert(q.push(s.last()).drop_last() =~= q);
        assert(s.drop_last().push(x).drop_last() =~= s.drop_last());
        if T::le(s.last(), y) && T::le(y, s.last()) && T::le(x, y) && T::le(y, x) {
            T::le_transitive(s.last(), y, x);
        }
        assert(of_rank::<T>(s.drop_last().push(x), y) == if T::le(x, y) && T::le(y, x) {
            of_rank::<T>(s.drop_last(), y).push(x)
        } else {
            of_rank::<T>(s.drop_last(), y)
        });
        assert(of_rank::<T>(s.push(x), y) == if T::le(x, y) && T::le(y, x) {
            of_rank::<T>(s, y).push(x)
        } else {
            of_rank::<T>(s, y)
        });
        assert(of_rank::<T>(q.push(s.last()), y) == if T::le(s.last(), y) && T::le(y, s.last()) {
            of_rank::<T>(q, y).push(s.last())
        } else {
            of_rank::<T>(q, y)
        });
    }
}

/// Putting a list in order keeps its items, puts no item before one that it should stand behind,
/// and leaves items of one rank in the order that they had.
pub proof fn sorted_is_stable<T: Ranked>(s: Seq<T::V>)
    ensures
        in_order::<T>(sorted::<T>(s)),
        sorted::<T>(s).len() == s.len(),
        sorted::<T>(s).to_multiset() == s.to_multiset(),
        forall|x: T::V| #[trigger]
            of_rank::<T>(sorted::<T>(s), x) == of_rank::<T>(s, x),
    decreases s.len(),
{
    broadcast use vstd::seq_lib::group_to_multiset_ensures;

    if s.len() > 0 {
        let before = sorted::<T>(s.drop_last());
        sorted_is_stable::<T>(s.drop_last());
        lemma_placed::<T>(before, s.last());
        lemma_placed_in_order::<T>(before, s.last());
        assert(s =~= s.drop_last().push(s.last()));
        assert forall|x: T::V| #[trigger]
            of_rank::<T>(sorted::<T>(s), x) == of_rank::<T>(s, x) by {
            lemma_placed_of_rank::<T>(before, s.last(), x);
            assert(before.push(s.last()).drop_last() =~= before);
            assert(of_rank::<T>(before, x) == of_rank::<T>(s.drop_last(), x));
            assert(sorted::<T>(s) == placed::<T>(before, s.last()));
            assert(of_rank::<T>(before.push(s.last()), x) == of_rank::<T>(s, x));
        }
    }
}

/// Every item of the ordered list is one of the list's, and stays when the list is put in order.
pub proof fn sorted_keeps_items<T: Ranked>(s: Seq<T::V>)
    ensures
        forall|x: T::V| #[trigger] sorted::<T>(s).contains(x) <==> s.contains(x),
{
    broadcast use vstd::seq_lib::group_to_multiset_ensures;

    sorted_is_stable::<T>(s);
    assert forall|x: T::V| #[trigger] sorted::<T>(s).contains(x) <==> s.contains(x) by {
        assert(sorted::<T>(s).contains(x) <==> sorted::<T>(s).to_multiset().count(x) > 0);
        assert(s.contains(x) <==> s.to_multiset().count(x) > 0);
    }
}

/// The items of one rank are none if no item has that rank.
proof fn lemma_of_rank_empty<T: Ranked>(s: Seq<T::V>, x: T::V)
    requires
        forall|i: int| 0 <= i < s.len() ==> !(T::le(#[trigger] s[i], x) && T::le(x, s[i])),
    ensures
        of_rank::<T>(s, x).len() == 0,
    decreases s.len(),
{
    if s.len() > 0 {
        assert(!(T::le(s[s.len() - 1], x) && T::le(x, s[s.len() - 1])));
        assert forall|i: int| 0 <= i < s.drop_last().len() implies !(T::le(
            #[trigger] s.drop_last()[i],
            x,
        ) && T::le(x, s.drop_last()[i])) by {
            assert(!(T::le(s[i], x) && T::le(x, s[i])));
        }
        lemma_of_rank_empty::<T>(s.drop_last(), x);
    }
}

proof fn lemma_of_rank_not_empty<T: Ranked>(s: Seq<T::V>, x: T::V, i: int)
    requires
        0 <= i < s.len(),
        T::le(s[i], x),
        T::le(x, s[i]),
    ensures
        of_rank::<T>(s, x).len() > 0,
    decreases s.len(),
{
    if i < s.len() - 1 {
        lemma_of_rank_not_empty::<T>(s.drop_last(), x, i);
    }
}

proof fn lemma_of_rank_two<T: Ranked>(s: Seq<T::V>, x: T::V, i: int, j: int)
    requires
        0 <= i < j < s.len(),
        T::le(s[i], x),
        T::le(x, s[i]),
        T::le(s[j], x),
        T::le(x, s[j]),
    ensures
        of_rank::<T>(s, x).len() >= 2,
    decreases s.len(),
{
    if j < s.len() - 1 {
        lemma_of_rank_two::<T>(s.drop_last(), x, i, j);
    } else {
        lemma_of_rank_not_empty::<T>(s.drop_last(), x, i);
    }
}

/// No two items have one rank.
pub open spec fn distinct_ranks<T: Ranked>(s: Seq<T::V>) -> bool {
    forall|i: int, j: int|
        0 <= i < j < s.len() ==> !(T::le(#[trigger] s[i], #[trigger] s[j]) && T::le(s[j], s[i]))
}

proof fn lemma_of_rank_one<T: Ranked>(s: Seq<T::V>, x: T::V)
    requires
        distinct_ranks::<T>(s),
    ensures
        of_rank::<T>(s, x).len() <= 1,
    decreases s.len(),
{
    if s.len() > 0 {
        let front = s.drop_last();
        assert forall|i: int, j: int| 0 <= i < j < front.len() implies !(T::le(
            #[trigger] front[i],
            #[trigger] front[j],
        ) && T::le(front[j], front[i])) by {
            assert(!(T::le(s[i], s[j]) && T::le(s[j], s[i])));
        }
        lemma_of_rank_one::<T>(front, x);
        if T::le(s.last(), x) && T::le(x, s.last()) {
            assert forall|i: int| 0 <= i < front.len() implies !(T::le(#[trigger] front[i], x)
                && T::le(x, front[i])) by {
                if T::le(s[i], x) && T::le(x, s[i]) {
                    T::le_transitive(s[i], x, s.last());
                    T::le_transitive(s.last(), x, s[i]);
                    assert(!(T::le(s[i], s[s.len() - 1]) && T::le(s[s.len() - 1], s[i])));
                }
            }
            lemma_of_rank_empty::<T>(front, x);
        }
    }
}

/// If no two items of a list have one rank, no two of the ordered list have.
pub proof fn sorted_keeps_ranks_distinct<T: Ranked>(s: Seq<T::V>)
    requires
        distinct_ranks::<T>(s),
    ensures
        distinct_ranks::<T>(sorted::<T>(s)),
{
    let r = sorted::<T>(s);
    sorted_is_stable::<T>(s);
    assert forall|i: int, j: int| 0 <= i < j < r.len() implies !(T::le(
        #[trigger] r[i],
        #[trigger] r[j],
    ) && T::le(r[j], r[i])) by {
        if T::le(r[i], r[j]) && T::le(r[j], r[i]) {
            T::le_total(r[i], r[i]);
            lemma_of_rank_two::<T>(r, r[i], i, j);
            lemma_of_rank_one::<T>(s, r[i]);
            assert(of_rank::<T>(r, r[i]) == of_rank::<T>(s, r[i]));
        }
    }
}

/// There is only one list that is in order and has the items of each rank in a given order.
pub proof fn stable_order_is_unique<T: Ranked>(s: Seq<T::V>, t: Seq<T::V>)
    requires
        in_order::<T>(s),
        in_order::<T>(t),
        forall|x: T::V| #[trigger] of_rank::<T>(s, x) == of_rank::<T>(t, x),
    ensures
        s == t,
    decreases s.len(),
{
    if s.len() == 0 {
        if t.len() > 0 {
            T::le_total(t.last(), t.last());
            lemma_of_rank_not_empty::<T>(t, t.last(), t.len() - 1);
            assert(of_rank::<T>(s, t.last()) == of_rank::<T>(t, t.last()));
        }
        assert(s =~= t);
    } else if t.len() == 0 {
        T::le_total(s.last(), s.last());
        lemma_of_rank_not_empty::<T>(s, s.last(), s.len() - 1);
        assert(of_rank::<T>(s, s.last()) == of_rank::<T>(t, s.last()));
    } else {
        let x = s.last();
        let y = t.last();
        lemma_last_is_behind::<T>(s, t);
        lemma_last_is_behind::<T>(t, s);
        T::le_total(x, x);
        assert(of_rank::<T>(s, x) == of_rank::<T>(s.drop_last(), x).push(x));
        assert(of_rank::<T>(t, x) == of_rank::<T>(t.drop_last(), x).push(y));
        assert(of_rank::<T>(s, x) == of_rank::<T>(t, x));
        assert(of_rank::<T>(s, x).last() == x);
        assert(of_rank::<T>(t, x).last() == y);
        let front = s.drop_last();
        let other = t.drop_last();
        assert(in_order::<T>(front)) by {
            assert forall|i: int, j: int| 0 <= i < j < front.len() implies T::le(
                #[trigger] front[i],
                #[trigger] front[j],
            ) by {
                assert(T::le(s[i], s[j]));
            }
        }
        assert(in_order::<T>(other)) by {
            assert forall|i: int, j: int| 0 <= i < j < other.len() implies T::le(
                #[trigger] other[i],
                #[trigger] other[j],
            ) by {
                assert(T::le(t[i], t[j]));
            }
        }
        assert forall|z: T::V| #[trigger]
            of_rank::<T>(front, z) == of_rank::<T>(other, z) by {
            assert(of_rank::<T>(s, z) == of_rank::<T>(t, z));
            if T::le(x, z) && T::le(z, x) {
                assert(of_rank::<T>(s, z) == of_rank::<T>(front, z).push(x));
                assert(of_rank::<T>(t, z) == of_rank::<T>(other, z).push(x));
                assert(of_rank::<T>(front, z) =~= of_rank::<T>(s, z).drop_last());
                assert(of_rank::<T>(other, z) =~= of_rank::<T>(t, z).drop_last());
            }
        }
        stable_order_is_unique::<T>(front, other);
        assert(s =~= front.push(x));
        assert(t =~= other.push(y));
    }
}

/// The last item of a list need not stand behind that of another list with the same ranks.
proof fn lemma_last_is_behind<T: Ranked>(s: Seq<T::V>, t: Seq<T::V>)
    requires
        s.len() > 0,
        t.len() > 0,
        in_order::<T>(t),
        forall|x: T::V| #[trigger] of_rank::<T>(s, x) == of_rank::<T>(t, x),
    ensures
        T::le(s.last(), t.last()),
{
    let x = s.last();
    T::le_total(x, x);
    lemma_of_rank_not_empty::<T>(s, x, s.len() - 1);
    assert(of_rank::<T>(s, x) == of_rank::<T>(t, x));
    if !(exists|i: int| 0 <= i < t.len() && T::le(#[trigger] t[i], x) && T::le(x, t[i])) {
        lemma_of_rank_empty::<T>(t, x);
    }
    let i = choose|i: int| 0 <= i < t.len() && T::le(#[trigger] t[i], x) && T::le(x, t[i]);
    if i < t.len() - 1 {
        assert(T::le(t[i], t[t.len() - 1]));
        T::le_transitive(x, t[i], t.last());
    }
}

/// Puts `v` in order.
pub fn sort<T: Ranked>(v: Vec<T>) -> (r: Vec<T>)
    ensures
        views(r@) == sorted::<T>(views(v@)),
{
    let n: usize = v.len();
    let mut v: Vec<T> = v;
    let ghost s = views(v@);
    assert(views(v@) =~= sorted::<T>(s.take(0)) + s.skip(0));
    for i in 0..n
        invariant
            n == s.len(),
            v@.len() == n,
            views(v@) == sorted::<T>(s.take(i as int)) + s.skip(i as int),
            sorted::<T>(s.take(i as int)).len() == i,
    {
        let ghost front = sorted::<T>(s.take(i as int));
        let ghost whole = views(v@);
        let x: T = v.remove(i);
        assert(whole[i as int] == s.skip(i as int)[0]);
        assert(x@ == s[i as int]);
        assert(views(v@) =~= whole.remove(i as int));
        assert(whole.remove(i as int) =~= front + s.skip(i + 1));
        let mut k: usize = i;
        assert(placed::<T>(front, x@) =~= placed::<T>(front.take(k as int), x@) + front.skip(
            k as int,
        )) by {
            assert(front.take(k as int) =~= front);
        }
        while k > 0 && !v[k - 1].not_behind(&x)
            invariant
                k <= i < n,
                v@.len() == n - 1,
                front.len() == i,
                views(v@) == front + s.skip(i + 1),
                placed::<T>(front, x@) == placed::<T>(front.take(k as int), x@) + front.skip(
                    k as int,
                ),
            decreases k,
        {
            assert(views(v@)[k - 1] == front[k - 1]);
            assert(front.take(k as int).drop_last() =~= front.take(k - 1));
            assert(placed::<T>(front.take(k - 1), x@).push(front[k - 1]) + front.skip(k as int)
                =~= placed::<T>(front.take(k - 1), x@) + front.skip(k - 1));
            k -= 1;
        }
        if k > 0 {
            assert(views(v@)[k - 1] == front[k - 1]);
            assert(front.take(k as int).last() == front[k - 1]);
        }
        assert(placed::<T>(front, x@) =~= front.take(k as int).push(x@) + front.skip(k as int));
        let ghost before = views(v@);
        v.insert(k, x);
        assert(views(v@) =~= before.insert(k as int, x@));
        assert(views(v@) =~= placed::<T>(front, x@) + s.skip(i + 1));
        assert(s.take(i + 1).drop_last() =~= s.take(i as int));
        proof {
            lemma_placed::<T>(front, x@);
        }
    }
    assert(s.take(n as int) =~= s);
    assert(views(v@) =~= sorted::<T>(s));
    v
}

// ---------------------------------------------------------------------------
// Texts
// ---------------------------------------------------------------------------
/// `a` does not stand behind `b` in the order of code points: the first character that differs
/// decides, and a text stands before every longer one that begins with it.
pub open spec fn text_le(a: Seq<char>, b: Seq<char>) -> bool
    decreases a.len(),
{
    if a.len() == 0 {
        true
    } else if b.len() == 0 {
        false
    } else if a[0] != b[0] {
        a[0] < b[0]
    } else {
        text_le(a.skip(1), b.skip(1))
    }
}

pub proof fn text_le_total(a: Seq<char>, b: Seq<char>)
    ensures
        text_le(a, b) || text_le(b, a),
    decreases a.len(),
{
    if a.len() > 0 && b.len() > 0 {
        text_le_total(a.skip(1), b.skip(1));
    }
}

pub proof fn text_le_transitive(a: Seq<char>, b: Seq<char>, c: Seq<char>)
    requires
        text_le(a, b),
        text_le(b, c),
    ensures
        text_le(a, c),
    decreases a.len(),
{
    if a.len() > 0 && a[0] == b[0] && b[0] == c[0] {
        text_le_transitive(a.skip(1), b.skip(1), c.skip(1));
    }
}

/// Two texts of which neither stands behind the other are the same.
pub proof fn text_le_antisymmetric(a: Seq<char>, b: Seq<char>)
    requires
        text_le(a, b),
        text_le(b, a),
    ensures
        a == b,
    decreases a.len(),
{
    if a.len() > 0 {
        text_le_antisymmetric(a.skip(1), b.skip(1));
        assert(a =~= seq![a[0]] + a.skip(1));
        assert(b =~= seq![b[0]] + b.skip(1));
    } else {
        assert(a =~= b);
    }
}

pub fn text_not_behind(a: &str, b: &str) -> (r: bool)
    ensures
        r == text_le(a@, b@),
{
    let x: Vec<char> = to_chars(a);
    let y: Vec<char> = to_chars(b);
    let mut i: usize = 0;
    assert(a@.skip(0) =~= a@);
    assert(b@.skip(0) =~= b@);
    while i < x.len() && i < y.len() && x[i] == y[i]
        invariant
            x@ == a@,
            y@ == b@,
            i <= a@.len(),
            i <= b@.len(),
            text_le(a@, b@) == text_le(a@.skip(i as int), b@.skip(i as int)),
        decreases a@.len() - i,
    {
        assert(a@.skip(i as int).skip(1) =~= a@.skip(i + 1));
        assert(b@.skip(i as int).skip(1) =~= b@.skip(i + 1));
        i += 1;
    }
    if i == x.len() {
        true
    } else if i == y.len() {
        false
    } else {
        x[i] < y[i]
    }
}

/// The first character that differs decides the order of two texts, and a text stands before every
/// longer one that begins with it.
pub proof fn the_first_difference_decides(
    common: Seq<char>,
    x: char,
    y: char,
    a: Seq<char>,
    b: Seq<char>,
)
    requires
        x < y,
    ensures
        text_le(common + seq![x] + a, common + seq![y] + b),
        !text_le(common + seq![y] + b, common + seq![x] + a),
        text_le(common, common + a),
        a.len() > 0 ==> !text_le(common + a, common),
    decreases common.len(),
{
    let p = common + seq![x] + a;
    let q = common + seq![y] + b;
    if common.len() == 0 {
        assert(p[0] == x && q[0] == y);
        assert(common + a =~= a);
    } else {
        let rest = common.skip(1);
        the_first_difference_decides(rest, x, y, a, b);
        assert(p.skip(1) =~= rest + seq![x] + a);
        assert(q.skip(1) =~= rest + seq![y] + b);
        assert((common + a).skip(1) =~= rest + a);
    }
}

/// A view of a list holds the view of each of its items, in order.
pub proof fn lists_are_seen_by_their_items<T: View>(s: Seq<T>, i: int)
    requires
        0 <= i < s.len(),
    ensures
        views(s).len() == s.len(),
        views(s)[i] == s[i]@,
{
}

} // verus!
