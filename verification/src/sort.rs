//! A stable insertion sort on sequences, with the lemmas the formatters
//! need: the result is sorted, it is a permutation of the input, sorting a
//! sorted sequence changes nothing, and sorting commutes with an
//! order-preserving map.  Stability matters: entries whose keys tie keep
//! their source order, which makes the canonical form deterministic.

use vstd::prelude::*;

verus! {

/// Every pair of entries in `s` is ordered by `leq`.
pub open spec fn seq_sorted_by<T>(s: Seq<T>, leq: spec_fn(T, T) -> bool) -> bool {
    forall|i: int, j: int| 0 <= i < j < s.len() ==> leq(s[i], s[j])
}

/// `leq` relates every pair of values one way or the other.
pub open spec fn leq_total<T>(leq: spec_fn(T, T) -> bool) -> bool {
    forall|a: T, b: T| #[trigger] leq(a, b) || #[trigger] leq(b, a)
}

/// `leq` is transitive.
pub open spec fn leq_transitive<T>(leq: spec_fn(T, T) -> bool) -> bool {
    forall|a: T, b: T, c: T| #[trigger] leq(a, b) && #[trigger] leq(b, c) ==> leq(a, c)
}

/// Inserts `x` after every leading entry that `leq`-precedes it (so after
/// any entry with an equal key, which is what makes the sort stable).
pub open spec fn insert_by<T>(leq: spec_fn(T, T) -> bool, x: T, s: Seq<T>) -> Seq<T>
    decreases s.len(),
{
    if s.len() == 0 {
        seq![x]
    } else if leq(s[0], x) {
        seq![s[0]] + insert_by(leq, x, s.drop_first())
    } else {
        seq![x] + s
    }
}

/// Stable insertion sort: entries with equal keys keep their source order.
pub open spec fn sort_by_insertion<T>(leq: spec_fn(T, T) -> bool, s: Seq<T>) -> Seq<T>
    decreases s.len(),
{
    if s.len() == 0 {
        s
    } else {
        insert_by(leq, s.last(), sort_by_insertion(leq, s.drop_last()))
    }
}

pub proof fn lemma_insert_by_len<T>(leq: spec_fn(T, T) -> bool, x: T, s: Seq<T>)
    ensures
        insert_by(leq, x, s).len() == s.len() + 1,
    decreases s.len(),
{
    if s.len() > 0 && leq(s[0], x) {
        lemma_insert_by_len(leq, x, s.drop_first());
    }
}

pub proof fn lemma_sort_by_insertion_len<T>(leq: spec_fn(T, T) -> bool, s: Seq<T>)
    ensures
        sort_by_insertion(leq, s).len() == s.len(),
    decreases s.len(),
{
    if s.len() > 0 {
        lemma_sort_by_insertion_len(leq, s.drop_last());
        lemma_insert_by_len(leq, s.last(), sort_by_insertion(leq, s.drop_last()));
    }
}

proof fn lemma_insert_by_sorted<T>(leq: spec_fn(T, T) -> bool, x: T, s: Seq<T>)
    requires
        leq_total(leq),
        leq_transitive(leq),
        seq_sorted_by(s, leq),
    ensures
        seq_sorted_by(insert_by(leq, x, s), leq),
    decreases s.len(),
{
    if s.len() == 0 {
    } else if leq(s[0], x) {
        assert(seq_sorted_by(s.drop_first(), leq));
        lemma_insert_by_sorted(leq, x, s.drop_first());
        let r = seq![s[0]] + insert_by(leq, x, s.drop_first());
        lemma_insert_by_len(leq, x, s.drop_first());
        // s[0] precedes every entry of the inserted tail
        assert forall|j: int| 1 <= j < r.len() implies leq(r[0], #[trigger] r[j]) by {
            lemma_insert_by_element(leq, x, s.drop_first(), j - 1);
        }
    } else {
        assert(leq(x, s[0]));
        let r = seq![x] + s;
        assert forall|j: int| 1 <= j < r.len() implies leq(r[0], #[trigger] r[j]) by {
            if j > 1 {
                assert(leq(s[0], s[j - 1]));
            }
        }
    }
}

/// Every entry of `insert_by(leq, x, s)` is either `x` or an entry of `s`
/// drawn from the matching region.
proof fn lemma_insert_by_element<T>(leq: spec_fn(T, T) -> bool, x: T, s: Seq<T>, j: int)
    requires
        leq_total(leq),
        0 <= j < insert_by(leq, x, s).len(),
    ensures
        insert_by(leq, x, s)[j] == x || (exists|k: int|
            0 <= k < s.len() && insert_by(leq, x, s)[j] == s[k]),
    decreases s.len(),
{
    lemma_insert_by_len(leq, x, s);
    if s.len() == 0 {
    } else if leq(s[0], x) {
        if j > 0 {
            lemma_insert_by_element(leq, x, s.drop_first(), j - 1);
            if insert_by(leq, x, s.drop_first())[j - 1] != x {
                let k = choose|k: int|
                    0 <= k < s.drop_first().len() && insert_by(leq, x, s.drop_first())[j - 1]
                        == s.drop_first()[k];
                assert(insert_by(leq, x, s)[j] == s[k + 1]);
            }
        }
    }
}

/// The sorted sequence is sorted.
pub proof fn lemma_sort_by_insertion_sorted<T>(leq: spec_fn(T, T) -> bool, s: Seq<T>)
    requires
        leq_total(leq),
        leq_transitive(leq),
    ensures
        seq_sorted_by(sort_by_insertion(leq, s), leq),
    decreases s.len(),
{
    if s.len() > 0 {
        lemma_sort_by_insertion_sorted(leq, s.drop_last());
        lemma_insert_by_sorted(leq, s.last(), sort_by_insertion(leq, s.drop_last()));
    }
}

proof fn lemma_insert_by_multiset<T>(leq: spec_fn(T, T) -> bool, x: T, s: Seq<T>)
    ensures
        insert_by(leq, x, s).to_multiset() == s.to_multiset().insert(x),
    decreases s.len(),
{
    broadcast use vstd::seq_lib::group_to_multiset_ensures;

    if s.len() == 0 {
        assert(seq![x] =~= Seq::<T>::empty().push(x));
        assert(Seq::<T>::empty().push(x).to_multiset() =~= Seq::<T>::empty().to_multiset().insert(
            x,
        ));
    } else if leq(s[0], x) {
        lemma_insert_by_multiset(leq, x, s.drop_first());
        let t = insert_by(leq, x, s.drop_first());
        assert(seq![s[0]] + t =~= (seq![s[0]] + t));
        vstd::seq_lib::lemma_multiset_commutative(seq![s[0]], t);
        vstd::seq_lib::lemma_multiset_commutative(seq![s[0]], s.drop_first());
        assert(s =~= seq![s[0]] + s.drop_first());
        assert(insert_by(leq, x, s).to_multiset() =~= s.to_multiset().insert(x));
    } else {
        vstd::seq_lib::lemma_multiset_commutative(seq![x], s);
        assert(seq![x].to_multiset() =~= Seq::<T>::empty().to_multiset().insert(x));
        assert(insert_by(leq, x, s).to_multiset() =~= s.to_multiset().insert(x));
    }
}

/// The sorted sequence is a permutation of the input.
pub proof fn lemma_sort_by_insertion_multiset<T>(leq: spec_fn(T, T) -> bool, s: Seq<T>)
    ensures
        sort_by_insertion(leq, s).to_multiset() == s.to_multiset(),
    decreases s.len(),
{
    broadcast use vstd::seq_lib::group_to_multiset_ensures;

    if s.len() > 0 {
        lemma_sort_by_insertion_multiset(leq, s.drop_last());
        lemma_insert_by_multiset(leq, s.last(), sort_by_insertion(leq, s.drop_last()));
        assert(s =~= s.drop_last().push(s.last()));
        assert(s.drop_last().push(s.last()).to_multiset() =~= s.drop_last().to_multiset().insert(
            s.last(),
        ));
    }
}

/// Inserting an entry that every entry of `s` precedes appends it.
proof fn lemma_insert_by_at_end<T>(leq: spec_fn(T, T) -> bool, x: T, s: Seq<T>)
    requires
        forall|k: int| 0 <= k < s.len() ==> leq(#[trigger] s[k], x),
    ensures
        insert_by(leq, x, s) == s.push(x),
    decreases s.len(),
{
    if s.len() == 0 {
        assert(seq![x] =~= s.push(x));
    } else {
        lemma_insert_by_at_end(leq, x, s.drop_first());
        assert(seq![s[0]] + s.drop_first().push(x) =~= s.push(x));
    }
}

/// Sorting a sorted sequence changes nothing.
pub proof fn lemma_sort_by_insertion_of_sorted<T>(leq: spec_fn(T, T) -> bool, s: Seq<T>)
    requires
        seq_sorted_by(s, leq),
    ensures
        sort_by_insertion(leq, s) == s,
    decreases s.len(),
{
    if s.len() > 0 {
        assert(seq_sorted_by(s.drop_last(), leq));
        lemma_sort_by_insertion_of_sorted(leq, s.drop_last());
        lemma_insert_by_at_end(leq, s.last(), s.drop_last());
        assert(s.drop_last().push(s.last()) =~= s);
    }
}

/// Sorting is idempotent.
pub proof fn lemma_sort_by_insertion_idempotent<T>(leq: spec_fn(T, T) -> bool, s: Seq<T>)
    requires
        leq_total(leq),
        leq_transitive(leq),
    ensures
        sort_by_insertion(leq, sort_by_insertion(leq, s)) == sort_by_insertion(leq, s),
{
    lemma_sort_by_insertion_sorted(leq, s);
    lemma_sort_by_insertion_of_sorted(leq, sort_by_insertion(leq, s));
}

proof fn lemma_insert_by_map<T>(
    leq: spec_fn(T, T) -> bool,
    f: spec_fn(T) -> T,
    x: T,
    s: Seq<T>,
)
    requires
        forall|a: T, b: T| #[trigger] leq(f(a), f(b)) == leq(a, b),
    ensures
        insert_by(leq, f(x), s.map_values(f)) == insert_by(leq, x, s).map_values(f),
    decreases s.len(),
{
    if s.len() == 0 {
        assert(insert_by(leq, f(x), s.map_values(f)) =~= insert_by(leq, x, s).map_values(f));
    } else if leq(s[0], x) {
        lemma_insert_by_map(leq, f, x, s.drop_first());
        assert(s.map_values(f).drop_first() =~= s.drop_first().map_values(f));
        assert(seq![f(s[0])] + insert_by(leq, x, s.drop_first()).map_values(f) =~= (seq![s[0]]
            + insert_by(leq, x, s.drop_first())).map_values(f));
    } else {
        assert(seq![f(x)] + s.map_values(f) =~= (seq![x] + s).map_values(f));
    }
}

/// Sorting commutes with a map that preserves the order.
pub proof fn lemma_sort_by_insertion_map<T>(
    leq: spec_fn(T, T) -> bool,
    f: spec_fn(T) -> T,
    s: Seq<T>,
)
    requires
        forall|a: T, b: T| #[trigger] leq(f(a), f(b)) == leq(a, b),
    ensures
        sort_by_insertion(leq, s.map_values(f)) == sort_by_insertion(leq, s).map_values(f),
    decreases s.len(),
{
    if s.len() == 0 {
        assert(sort_by_insertion(leq, s.map_values(f)) =~= sort_by_insertion(leq, s).map_values(
            f,
        ));
    } else {
        lemma_sort_by_insertion_map(leq, f, s.drop_last());
        assert(s.map_values(f).drop_last() =~= s.drop_last().map_values(f));
        assert(s.map_values(f).last() == f(s.last()));
        lemma_insert_by_map(leq, f, s.last(), sort_by_insertion(leq, s.drop_last()));
    }
}

/// The sum of a measure over a sequence.
pub open spec fn seq_sum<T>(s: Seq<T>, m: spec_fn(T) -> nat) -> nat
    decreases s.len(),
{
    if s.len() == 0 {
        0
    } else {
        m(s[0]) + seq_sum(s.drop_first(), m)
    }
}

proof fn lemma_seq_sum_push<T>(s: Seq<T>, m: spec_fn(T) -> nat, x: T)
    ensures
        seq_sum(s.push(x), m) == seq_sum(s, m) + m(x),
    decreases s.len(),
{
    if s.len() == 0 {
        assert(s.push(x)[0] == x);
        assert(s.push(x).drop_first() =~= s);
    } else {
        assert(s.push(x).drop_first() =~= s.drop_first().push(x));
        lemma_seq_sum_push(s.drop_first(), m, x);
    }
}

proof fn lemma_insert_by_sum<T>(leq: spec_fn(T, T) -> bool, x: T, s: Seq<T>, m: spec_fn(T) -> nat)
    ensures
        seq_sum(insert_by(leq, x, s), m) == seq_sum(s, m) + m(x),
    decreases s.len(),
{
    if s.len() == 0 {
        assert(seq![x].drop_first() =~= Seq::<T>::empty());
        assert(seq_sum(Seq::<T>::empty(), m) == 0);
        assert(seq_sum(seq![x], m) == m(x));
    } else if leq(s[0], x) {
        lemma_insert_by_sum(leq, x, s.drop_first(), m);
        let t = seq![s[0]] + insert_by(leq, x, s.drop_first());
        assert(insert_by(leq, x, s) == t);
        assert(t[0] == s[0]);
        assert(t.len() > 0);
        assert(t.drop_first() =~= insert_by(leq, x, s.drop_first()));
        assert(seq_sum(t, m) == m(s[0]) + seq_sum(insert_by(leq, x, s.drop_first()), m));
    } else {
        let t = seq![x] + s;
        assert(insert_by(leq, x, s) == t);
        assert(t[0] == x);
        assert(t.len() > 0);
        assert(t.drop_first() =~= s);
        assert(seq_sum(t, m) == m(x) + seq_sum(s, m));
    }
}

/// Sorting preserves the sum of any measure (it permutes the entries).
pub proof fn lemma_sort_by_insertion_sum<T>(
    leq: spec_fn(T, T) -> bool,
    s: Seq<T>,
    m: spec_fn(T) -> nat,
)
    ensures
        seq_sum(sort_by_insertion(leq, s), m) == seq_sum(s, m),
    decreases s.len(),
{
    if s.len() > 0 {
        lemma_sort_by_insertion_sum(leq, s.drop_last(), m);
        lemma_insert_by_sum(leq, s.last(), sort_by_insertion(leq, s.drop_last()), m);
        lemma_seq_sum_push(s.drop_last(), m, s.last());
        assert(s.drop_last().push(s.last()) =~= s);
    }
}

/// A type whose values the formatters sort, by a key on their views.
pub trait Sortable: Sized + View {
    /// The order that sorting establishes.
    spec fn key_leq(a: Self::V, b: Self::V) -> bool;

    /// Decides `key_leq` on two values.
    fn leq(&self, other: &Self) -> (r: bool)
        ensures
            r == Self::key_leq(self@, other@),
    ;
}

/// The order of a sortable type, as a function value.
pub open spec fn key_order<T: Sortable>() -> spec_fn(T::V, T::V) -> bool {
    |a: T::V, b: T::V| T::key_leq(a, b)
}

/// The views of the entries of a sequence.
pub open spec fn view_seq<T: View>(s: Seq<T>) -> Seq<T::V> {
    s.map_values(|t: T| t@)
}

/// Sorts `v` in place: a stable insertion sort by each entry's key.
pub fn sort_vec<T: Sortable>(v: &mut Vec<T>)
    ensures
        view_seq(final(v)@) == sort_by_insertion(key_order::<T>(), view_seq(old(v)@)),
{
    let ghost s0 = view_seq(old(v)@);
    let ghost leq = key_order::<T>();
    let n = v.len();
    let mut i: usize = 0;
    while i < n
        invariant
            v@.len() == n,
            n == s0.len(),
            i <= n,
            s0 == view_seq(old(v)@),
            leq == key_order::<T>(),
            view_seq(v@).take(i as int) == sort_by_insertion(leq, s0.take(i as int)),
            view_seq(v@).skip(i as int) == s0.skip(i as int),
        decreases n - i,
    {
        let ghost prefix = view_seq(v@).take(i as int);
        let ghost before = v@;
        proof {
            assert(view_seq(v@)[i as int] == s0.skip(i as int)[0]);
            assert(s0.skip(i as int)[0] == s0[i as int]);
        }
        let x = v.remove(i);
        proof {
            assert(x@ == s0[i as int]);
            assert(v@ == before.remove(i as int));
            assert forall|k: int| 0 <= k < v@.len() implies view_seq(v@)[k] == (prefix + s0.skip(
                i + 1,
            ))[k] by {
                if k < i {
                    assert(v@[k] == before[k]);
                    assert(prefix[k] == view_seq(before)[k]);
                } else {
                    assert(v@[k] == before[k + 1]);
                    assert(view_seq(before).skip(i as int)[k + 1 - i] == s0.skip(i as int)[k + 1
                        - i]);
                    assert(view_seq(before)[k + 1] == s0[k + 1]);
                    assert((prefix + s0.skip(i + 1))[k] == s0.skip(i + 1)[k - i]);
                    assert(s0.skip(i + 1)[k - i] == s0[k + 1]);
                }
            }
            assert(view_seq(v@) =~= prefix + s0.skip(i + 1));
        }
        let mut j: usize = 0;
        while j < i && v[j].leq(&x)
            invariant
                j <= i,
                i < n,
                v@.len() == n - 1,
                leq == key_order::<T>(),
                x@ == s0[i as int],
                view_seq(v@) == prefix + s0.skip(i + 1),
                prefix.len() == i,
                forall|k: int| 0 <= k < j ==> leq(#[trigger] prefix[k], x@),
            decreases i - j,
        {
            proof {
                assert(view_seq(v@)[j as int] == prefix[j as int]);
            }
            j = j + 1;
        }
        proof {
            if j < i {
                assert(view_seq(v@)[j as int] == prefix[j as int]);
                assert(!leq(prefix[j as int], x@));
            }
            lemma_insert_by_position(leq, x@, prefix, j as int);
        }
        v.insert(j, x);
        proof {
            assert(view_seq(v@) =~= (prefix + s0.skip(i + 1)).insert(j as int, x@));
            assert(view_seq(v@).take(i + 1) =~= prefix.subrange(0, j as int) + seq![x@]
                + prefix.subrange(j as int, i as int));
            assert(view_seq(v@).take(i + 1) =~= insert_by(leq, x@, prefix));
            assert(view_seq(v@).skip(i + 1) =~= s0.skip(i + 1));
            assert(s0.take(i + 1).drop_last() =~= s0.take(i as int));
            assert(s0.take(i + 1).last() == s0[i as int]);
            assert(s0.take(i + 1).len() > 0);
            assert(sort_by_insertion(leq, s0.take(i + 1)) == insert_by(
                leq,
                s0[i as int],
                sort_by_insertion(leq, s0.take(i as int)),
            ));
        }
        i = i + 1;
    }
    proof {
        assert(s0.take(n as int) =~= s0);
        assert(view_seq(v@).take(n as int) =~= view_seq(v@));
    }
}

/// Where the new entry lands: after the leading entries that precede it.
/// `j` is the first position whose entry does not `leq`-precede `x`.
pub proof fn lemma_insert_by_position<T>(leq: spec_fn(T, T) -> bool, x: T, s: Seq<T>, j: int)
    requires
        0 <= j <= s.len(),
        forall|k: int| 0 <= k < j ==> leq(#[trigger] s[k], x),
        j == s.len() || !leq(s[j], x),
    ensures
        insert_by(leq, x, s) == s.subrange(0, j) + seq![x] + s.subrange(j, s.len() as int),
    decreases j,
{
    if j == 0 {
        if s.len() == 0 {
            assert(insert_by(leq, x, s) =~= s.subrange(0, 0) + seq![x] + s.subrange(
                0,
                s.len() as int,
            ));
        } else {
            assert(insert_by(leq, x, s) =~= s.subrange(0, 0) + seq![x] + s.subrange(
                0,
                s.len() as int,
            ));
        }
    } else {
        assert(leq(s[0], x));
        lemma_insert_by_position(leq, x, s.drop_first(), j - 1);
        assert(s.drop_first().subrange(0, j - 1) =~= s.subrange(1, j));
        assert(s.drop_first().subrange(j - 1, s.drop_first().len() as int) =~= s.subrange(
            j,
            s.len() as int,
        ));
        assert(seq![s[0]] + (s.subrange(1, j) + seq![x] + s.subrange(j, s.len() as int)) =~= s
            .subrange(0, j) + seq![x] + s.subrange(j, s.len() as int));
    }
}

} // verus!
