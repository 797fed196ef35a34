//! First-in, first-out queues kept side by side, one for each key.
use vstd::multiset::Multiset;
use vstd::prelude::*;

verus! {

/// The queue of `k`; a key that is not in the map has an empty queue.
pub open spec fn queue_of<K, E>(m: Map<K, Seq<E>>, k: K) -> Seq<E> {
    if m.contains_key(k) {
        m[k]
    } else {
        Seq::empty()
    }
}

/// `m` after `e` has joined the end of the queue of `k`.
pub open spec fn push_back<K, E>(m: Map<K, Seq<E>>, k: K, e: E) -> Map<K, Seq<E>> {
    m.insert(k, queue_of(m, k).push(e))
}

/// `m` after the first element has left the queue of `k`. A queue that runs empty disappears.
pub open spec fn pop_front<K, E>(m: Map<K, Seq<E>>, k: K) -> Map<K, Seq<E>> {
    if queue_of(m, k).len() <= 1 {
        m.remove(k)
    } else {
        m.insert(k, m[k].drop_first())
    }
}

/// Everything that stands in some queue of `m`, counted as often as it occurs.
pub open spec fn bag<K, E>(m: Map<K, Seq<E>>) -> Multiset<E>
    decreases m.dom().len(),
    when m.dom().finite()
{
    if m.dom().len() == 0 {
        Multiset::empty()
    } else {
        let k = m.dom().choose();
        m[k].to_multiset().add(bag(m.remove(k)))
    }
}

/// The bag splits into one queue and the bag of the others.
pub proof fn lemma_bag_split<K, E>(m: Map<K, Seq<E>>, k: K)
    requires
        m.dom().finite(),
        m.contains_key(k),
    ensures
        bag(m) == m[k].to_multiset().add(bag(m.remove(k))),
    decreases m.dom().len(),
{
    let c = m.dom().choose();
    assert(m.dom().contains(c));
    if c != k {
        lemma_bag_split(m.remove(c), k);
        lemma_bag_split(m.remove(k), c);
        assert(m.remove(c).remove(k) =~= m.remove(k).remove(c));
        assert(bag(m) =~= m[k].to_multiset().add(bag(m.remove(k))));
    }
}

/// Replacing the queue of `k` replaces its share of the bag.
pub proof fn lemma_bag_insert<K, E>(m: Map<K, Seq<E>>, k: K, s: Seq<E>)
    requires
        m.dom().finite(),
    ensures
        bag(m.insert(k, s)) == s.to_multiset().add(bag(m.remove(k))),
{
    lemma_bag_split(m.insert(k, s), k);
    assert(m.insert(k, s).remove(k) =~= m.remove(k));
}

/// Joining a queue adds the element to the bag.
pub proof fn lemma_bag_push<K, E>(m: Map<K, Seq<E>>, k: K, e: E)
    requires
        m.dom().finite(),
    ensures
        bag(push_back(m, k, e)) == bag(m).insert(e),
{
    broadcast use vstd::seq_lib::group_to_multiset_ensures;

    let s = queue_of(m, k);
    lemma_bag_insert(m, k, s.push(e));
    if m.contains_key(k) {
        lemma_bag_split(m, k);
    } else {
        assert(m.remove(k) =~= m);
        assert(s.to_multiset() =~= Multiset::empty());
    }
    assert(bag(push_back(m, k, e)) =~= bag(m).insert(e));
}

/// Leaving a queue takes its first element out of the bag.
pub proof fn lemma_bag_pop<K, E>(m: Map<K, Seq<E>>, k: K)
    requires
        m.dom().finite(),
        m.contains_key(k),
        m[k].len() > 0,
    ensures
        bag(m).contains(m[k][0]),
        bag(pop_front(m, k)) == bag(m).remove(m[k][0]),
{
    broadcast use vstd::seq_lib::group_to_multiset_ensures;

    let s = m[k];
    lemma_bag_split(m, k);
    assert(s.drop_first() =~= s.remove(0));
    assert(s.contains(s[0]));
    assert(s.drop_first().to_multiset() == s.to_multiset().remove(s[0]));
    assert(s.to_multiset().count(s[0]) > 0);
    if s.len() <= 1 {
        assert(s.drop_first() =~= Seq::empty());
        assert(s.drop_first().to_multiset() =~= Multiset::empty());
    } else {
        lemma_bag_insert(m, k, s.drop_first());
    }
    assert forall|e: E| bag(pop_front(m, k)).count(e) == bag(m).remove(s[0]).count(e) by {
        assert(s.drop_first().to_multiset().count(e) == s.to_multiset().remove(s[0]).count(e));
    }
    assert(bag(pop_front(m, k)) =~= bag(m).remove(s[0]));
}

/// What is in the bag stands at some place of some queue, and the other way round.
pub proof fn lemma_bag_contains<K, E>(m: Map<K, Seq<E>>, e: E)
    requires
        m.dom().finite(),
    ensures
        bag(m).contains(e) <==> exists|k: K| #[trigger] m.contains_key(k) && m[k].contains(e),
    decreases m.dom().len(),
{
    broadcast use vstd::seq_lib::group_to_multiset_ensures;

    if m.dom().len() == 0 {
        assert forall|k: K| #[trigger] m.contains_key(k) implies !m[k].contains(e) by {
            assert(m.dom().contains(k));
        }
    } else {
        let c = m.dom().choose();
        assert(m.dom().contains(c));
        lemma_bag_contains(m.remove(c), e);
        if bag(m).contains(e) && bag(m.remove(c)).contains(e) {
            let k = choose|k: K| #[trigger] m.remove(c).contains_key(k) && m.remove(c)[k].contains(e);
            assert(m.contains_key(k) && m[k].contains(e));
        } else if bag(m).contains(e) {
            assert(m.contains_key(c) && m[c].contains(e));
        }
        if exists|k: K| #[trigger] m.contains_key(k) && m[k].contains(e) {
            let k = choose|k: K| #[trigger] m.contains_key(k) && m[k].contains(e);
            if k != c {
                assert(m.remove(c).contains_key(k) && m.remove(c)[k].contains(e));
            }
        }
    }
}

/// Joining the queue of `k` puts the element at its end and leaves the other queues alone.
pub proof fn law_push_back_joins_the_end<K, E>(m: Map<K, Seq<E>>, k: K, e: E, other: K)
    requires
        other != k,
    ensures
        push_back(m, k, e).contains_key(k),
        push_back(m, k, e)[k].len() > 0,
        push_back(m, k, e)[k].last() == e,
        m.contains_key(k) ==> push_back(m, k, e)[k].drop_last() == m[k],
        !m.contains_key(k) ==> push_back(m, k, e)[k].len() == 1,
        push_back(m, k, e).contains_key(other) == m.contains_key(other),
        m.contains_key(other) ==> push_back(m, k, e)[other] == m[other],
{
    if m.contains_key(k) {
        assert(push_back(m, k, e)[k].drop_last() =~= m[k]);
    }
}

/// Leaving the queue of `k` takes its first element off and leaves the other queues alone.
pub proof fn law_pop_front_leaves_the_rest<K, E>(m: Map<K, Seq<E>>, k: K, other: K)
    requires
        m.contains_key(k),
        m[k].len() > 0,
        other != k,
    ensures
        pop_front(m, k).contains_key(k) <==> m[k].len() > 1,
        pop_front(m, k).contains_key(k) ==> seq![m[k][0]] + pop_front(m, k)[k] == m[k],
        pop_front(m, k).contains_key(other) == m.contains_key(other),
        m.contains_key(other) ==> pop_front(m, k)[other] == m[other],
{
    if m[k].len() > 1 {
        assert(seq![m[k][0]] + pop_front(m, k)[k] =~= m[k]);
    }
}

/// Where there are no queues, nothing is in the bag.
pub proof fn law_bag_of_no_queues<K, E>()
    ensures
        bag(Map::<K, Seq<E>>::empty()) == Multiset::<E>::empty(),
{
}

} // verus!
