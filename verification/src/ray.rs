//! The hits of a ray, put in the order in which the ray meets them.

use vstd::prelude::*;

verus! {

/// One hit of a ray: when the ray gets there, and whatever the caller wants
/// to know of the hit. The time is kept as a whole number that orders as the
/// distance along the ray does.
#[derive(Debug, Clone, Copy, PartialEq, Eq)]
pub struct Intersection<T> {
    pub time: u64,
    pub hit: T,
}

impl<T> Intersection<T> {
    /// A hit at `time`.
    pub fn new(time: u64, hit: T) -> (intersection: Intersection<T>)
        ensures
            intersection.time == time,
            intersection.hit == hit,
    {
        Intersection { time, hit }
    }
}

/// `sorted` with `item` put in behind every hit that is no later than it.
pub open spec fn inserted<T>(
    sorted: Seq<Intersection<T>>,
    item: Intersection<T>,
) -> Seq<Intersection<T>>
    decreases sorted.len(),
{
    if sorted.len() == 0 {
        seq![item]
    } else if sorted.last().time <= item.time {
        sorted.push(item)
    } else {
        inserted(sorted.drop_last(), item).push(sorted.last())
    }
}

/// The hits of `hits` from the earliest to the latest, hits at one time in
/// the order in which they stand in `hits`.
pub open spec fn sorted_by_time<T>(hits: Seq<Intersection<T>>) -> Seq<Intersection<T>>
    decreases hits.len(),
{
    if hits.len() == 0 {
        Seq::empty()
    } else {
        inserted(sorted_by_time(hits.drop_last()), hits.last())
    }
}

/// Whether no hit of `hits` is earlier than one before it.
pub open spec fn ordered<T>(hits: Seq<Intersection<T>>) -> bool {
    forall|i: int, j: int| 0 <= i <= j < hits.len() ==> hits[i].time <= hits[j].time
}

/// The hits of `hits` at `time`, in the order in which they stand there.
pub open spec fn hits_at<T>(hits: Seq<Intersection<T>>, time: u64) -> Seq<Intersection<T>> {
    hits.filter(|hit: Intersection<T>| hit.time == time)
}

/// Putting a hit in adds that hit and no other, and takes none away.
pub proof fn lemma_inserted_multiset<T>(sorted: Seq<Intersection<T>>, item: Intersection<T>)
    ensures
        inserted(sorted, item).len() == sorted.len() + 1,
        inserted(sorted, item).to_multiset() == sorted.to_multiset().insert(item),
    decreases sorted.len(),
{
    broadcast use vstd::seq_lib::group_to_multiset_ensures;

    if sorted.len() == 0 {
        assert(seq![item] =~= Seq::<Intersection<T>>::empty().push(item));
        assert(sorted =~= Seq::<Intersection<T>>::empty());
    } else if sorted.last().time <= item.time {
    } else {
        lemma_inserted_multiset(sorted.drop_last(), item);
        assert(sorted =~= sorted.drop_last().push(sorted.last()));
        assert(sorted.drop_last().to_multiset().insert(item).insert(sorted.last())
            =~= sorted.drop_last().to_multiset().insert(sorted.last()).insert(item));
    }
}

/// Putting a hit into ordered hits leaves them ordered.
pub proof fn lemma_inserted_ordered<T>(sorted: Seq<Intersection<T>>, item: Intersection<T>)
    requires
        ordered(sorted),
    ensures
        ordered(inserted(sorted, item)),
        forall|i: int|
            0 <= i < inserted(sorted, item).len() ==> #[trigger] inserted(sorted, item)[i] == item
                || exists|j: int| 0 <= j < sorted.len() && sorted[j] == inserted(sorted, item)[i],
    decreases sorted.len(),
{
    let result = inserted(sorted, item);
    if sorted.len() == 0 {
    } else if sorted.last().time <= item.time {
        assert forall|i: int| 0 <= i < result.len() implies #[trigger] result[i] == item
            || exists|j: int| 0 <= j < sorted.len() && sorted[j] == result[i] by {
            if i < sorted.len() {
                assert(sorted[i] == result[i]);
            }
        }
    } else {
        let init = sorted.drop_last();
        lemma_inserted_ordered(init, item);
        lemma_inserted_multiset(init, item);
        let inner = inserted(init, item);
        assert forall|i: int| 0 <= i < result.len() implies #[trigger] result[i] == item
            || exists|j: int| 0 <= j < sorted.len() && sorted[j] == result[i] by {
            if i < inner.len() {
                assert(result[i] == inner[i]);
                if inner[i] != item {
                    let j = choose|j: int| 0 <= j < init.len() && init[j] == inner[i];
                    assert(sorted[j] == result[i]);
                }
            } else {
                assert(sorted[sorted.len() - 1] == result[i]);
            }
        }
        assert forall|i: int, j: int| 0 <= i <= j < result.len() implies result[i].time
            <= result[j].time by {
            if j < inner.len() {
                assert(result[i] == inner[i] && result[j] == inner[j]);
            } else if i < inner.len() {
                assert(result[i] == inner[i]);
                if inner[i] != item {
                    let k = choose|k: int| 0 <= k < init.len() && init[k] == inner[i];
                    assert(sorted[k].time <= sorted[sorted.len() - 1].time);
                }
            }
        }
    }
}

/// Putting a hit in leaves the hits of every other time as they are, and
/// puts the hit last among those of its own time.
pub proof fn lemma_inserted_hits_at<T>(
    sorted: Seq<Intersection<T>>,
    item: Intersection<T>,
    time: u64,
)
    requires
        ordered(sorted),
    ensures
        hits_at(inserted(sorted, item), time) == if item.time == time {
            hits_at(sorted, time).push(item)
        } else {
            hits_at(sorted, time)
        },
    decreases sorted.len(),
{
    let at = |hit: Intersection<T>| hit.time == time;
    if sorted.len() == 0 {
        assert(seq![item] =~= Seq::<Intersection<T>>::empty().push(item));
        assert(sorted =~= Seq::<Intersection<T>>::empty());
        Seq::<Intersection<T>>::empty().lemma_filter_push(item, at);
    } else if sorted.last().time <= item.time {
        sorted.lemma_filter_push(item, at);
    } else {
        let init = sorted.drop_last();
        let last = sorted.last();
        assert(ordered(init)) by {
            assert forall|i: int, j: int| 0 <= i <= j < init.len() implies init[i].time
                <= init[j].time by {
                assert(init[i] == sorted[i] && init[j] == sorted[j]);
            }
        }
        lemma_inserted_hits_at(init, item, time);
        inserted(init, item).lemma_filter_push(last, at);
        assert(sorted =~= init.push(last));
        init.lemma_filter_push(last, at);
        if item.time == time {
            // No hit of `sorted` at this time stands behind one that is later.
            assert(last.time > time);
        }
    }
}

/// The hits in order are ordered.
pub proof fn lemma_sorted_ordered<T>(hits: Seq<Intersection<T>>)
    ensures
        ordered(sorted_by_time(hits)),
    decreases hits.len(),
{
    if hits.len() > 0 {
        lemma_sorted_ordered(hits.drop_last());
        lemma_inserted_ordered(sorted_by_time(hits.drop_last()), hits.last());
    }
}

/// The hits in order are the hits that there were: none is lost, none is
/// added, none is changed.
pub proof fn lemma_sorted_permutation<T>(hits: Seq<Intersection<T>>)
    ensures
        sorted_by_time(hits).len() == hits.len(),
        sorted_by_time(hits).to_multiset() == hits.to_multiset(),
    decreases hits.len(),
{
    broadcast use vstd::seq_lib::group_to_multiset_ensures;

    if hits.len() > 0 {
        lemma_sorted_permutation(hits.drop_last());
        lemma_inserted_multiset(sorted_by_time(hits.drop_last()), hits.last());
        assert(hits =~= hits.drop_last().push(hits.last()));
    } else {
        assert(hits =~= Seq::<Intersection<T>>::empty());
    }
}

/// Hits at one time keep the order in which they stood.
pub proof fn lemma_sorted_stable<T>(hits: Seq<Intersection<T>>, time: u64)
    ensures
        hits_at(sorted_by_time(hits), time) == hits_at(hits, time),
    decreases hits.len(),
{
    let at = |hit: Intersection<T>| hit.time == time;
    if hits.len() > 0 {
        let init = hits.drop_last();
        lemma_sorted_stable(init, time);
        lemma_sorted_ordered(init);
        lemma_inserted_hits_at(sorted_by_time(init), hits.last(), time);
        assert(hits =~= init.push(hits.last()));
        init.lemma_filter_push(hits.last(), at);
    } else {
        assert(hits =~= Seq::<Intersection<T>>::empty());
    }
}

/// The place of the nearest hit in `hits`: the first of the earliest.
pub open spec fn nearest_place<T>(hits: Seq<Intersection<T>>) -> int
    decreases hits.len(),
{
    if hits.len() <= 1 {
        0
    } else if hits.last().time < hits[nearest_place(hits.drop_last())].time {
        hits.len() - 1
    } else {
        nearest_place(hits.drop_last())
    }
}

/// No hit is earlier than the nearest, and none before it is as early.
pub proof fn lemma_nearest_place<T>(hits: Seq<Intersection<T>>)
    requires
        hits.len() > 0,
    ensures
        0 <= nearest_place(hits) < hits.len(),
        forall|i: int|
            0 <= i < hits.len() ==> hits[nearest_place(hits)].time <= (#[trigger] hits[i]).time,
        forall|i: int|
            0 <= i < nearest_place(hits) ==> hits[nearest_place(hits)].time < (
            #[trigger] hits[i]).time,
    decreases hits.len(),
{
    if hits.len() > 1 {
        let init = hits.drop_last();
        lemma_nearest_place(init);
        let place = nearest_place(hits);
        assert forall|i: int| 0 <= i < hits.len() implies hits[place].time <= (
        #[trigger] hits[i]).time by {
            if i < init.len() {
                assert(init[i] == hits[i]);
            }
        }
        assert forall|i: int| 0 <= i < place implies hits[place].time < (
        #[trigger] hits[i]).time by {
            if i < init.len() {
                assert(init[i] == hits[i]);
            }
        }
    }
}

/// The first of ordered hits with one more put in is the new hit where it
/// is earlier than all of them, and the hit that was first where it is not.
pub proof fn lemma_inserted_first<T>(sorted: Seq<Intersection<T>>, item: Intersection<T>)
    requires
        ordered(sorted),
    ensures
        inserted(sorted, item)[0] == if sorted.len() == 0 || item.time < sorted[0].time {
            item
        } else {
            sorted[0]
        },
    decreases sorted.len(),
{
    if sorted.len() > 0 && sorted.last().time > item.time {
        let init = sorted.drop_last();
        assert(ordered(init)) by {
            assert forall|i: int, j: int| 0 <= i <= j < init.len() implies init[i].time
                <= init[j].time by {
                assert(init[i] == sorted[i] && init[j] == sorted[j]);
            }
        }
        lemma_inserted_first(init, item);
        lemma_inserted_multiset(init, item);
        if init.len() > 0 {
            assert(init[0] == sorted[0]);
        }
    }
}

/// Once the hits are in order the first of them is the nearest: the
/// earliest, and among hits that are as early the one that stood first.
pub proof fn lemma_sorted_first<T>(hits: Seq<Intersection<T>>)
    requires
        hits.len() > 0,
    ensures
        sorted_by_time(hits)[0] == hits[nearest_place(hits)],
    decreases hits.len(),
{
    let init = hits.drop_last();
    lemma_sorted_ordered(init);
    lemma_inserted_first(sorted_by_time(init), hits.last());
    lemma_sorted_permutation(init);
    if init.len() > 0 {
        lemma_sorted_first(init);
        lemma_nearest_place(init);
        assert(init[nearest_place(init)] == hits[nearest_place(init)]);
    }
}

/// Lists of hits that can be put in the order in which the ray meets them.
pub trait SortByTime {
    /// Puts the hits in order, from the earliest to the latest.
    fn sort_by_time(&mut self);
}

impl<T: Copy> SortByTime for Vec<Intersection<T>> {
    /// Puts the hits in order, from the earliest to the latest. Hits at one
    /// time keep the order in which they stood.
    fn sort_by_time(&mut self)
        ensures
            final(self)@ == sorted_by_time(old(self)@),
    {
        let mut sorted: Vec<Intersection<T>> = Vec::new();
        let mut i: usize = 0;
        assert(self@.take(0) =~= Seq::<Intersection<T>>::empty());
        while i < self.len()
            invariant
                i <= self.len(),
                self@ == old(self)@,
                sorted@ == sorted_by_time(self@.take(i as int)),
            decreases self.len() - i,
        {
            let item: Intersection<T> = self[i];
            let mut j: usize = sorted.len();
            assert(sorted@.take(j as int) =~= sorted@);
            assert(sorted@.skip(j as int) =~= Seq::<Intersection<T>>::empty());
            assert(inserted(sorted@, item) =~= inserted(sorted@.take(j as int), item)
                + sorted@.skip(j as int));
            while j > 0 && sorted[j - 1].time > item.time
                invariant
                    j <= sorted.len(),
                    inserted(sorted@, item) == inserted(sorted@.take(j as int), item)
                        + sorted@.skip(j as int),
                decreases j,
            {
                assert(sorted@.take(j as int).drop_last() =~= sorted@.take(j - 1));
                assert(inserted(sorted@.take(j - 1), item).push(sorted@[j - 1]) + sorted@.skip(
                    j as int,
                ) =~= inserted(sorted@.take(j - 1), item) + sorted@.skip(j - 1));
                j -= 1;
            }
            proof {
                let front = sorted@.take(j as int);
                assert(inserted(front, item) =~= front.push(item));
                assert(front.push(item) + sorted@.skip(j as int) =~= sorted@.insert(
                    j as int,
                    item,
                ));
                assert(self@.take(i + 1).drop_last() =~= self@.take(i as int));
            }
            sorted.insert(j, item);
            i += 1;
        }
        assert(self@.take(i as int) =~= self@);
        *self = sorted;
    }
}

} // verus!
