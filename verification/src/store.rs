//! The store of sample windows: one bounded window per peer, kept in a
//! concurrent hash map.
//!
//! The map is made empty and from then on only looked into, inserted into,
//! copied and listed. No entry is ever removed, so the keys stay distinct and
//! the table keeps the empty buckets at which its lookups end.

use crate::span::nanos;
use crate::span::nanos_seq;
use crate::window::latest;
use crate::window::lemma_recorded_keeps_latest;
use crate::window::pushed;
use crate::window::recorded;
use crate::window::PushLossy;
use chashmap::CHashMap;
use std::time::Duration;
use vstd::prelude::*;

verus! {

/// `chashmap::CHashMap`, the concurrent hash map, taken as a type whose
/// inside is not looked into.
#[verifier::external_type_specification]
#[verifier::external_body]
#[verifier::reject_recursive_types(K)]
#[verifier::reject_recursive_types(V)]
pub struct ExCHashMap<K, V>(CHashMap<K, V>);

/// What a map of windows holds: for each peer that has an entry, its samples
/// in nanoseconds, oldest first.
pub uninterp spec fn windows(map: CHashMap<String, Vec<Duration>>) -> Map<Seq<char>, Seq<nat>>;

/// The peers and windows of a list of entries, as plain values.
pub open spec fn entry_views(entries: Seq<(String, Vec<Duration>)>) -> Seq<(Seq<char>, Seq<nat>)> {
    Seq::new(entries.len(), |i: int| (entries[i].0@, nanos_seq(entries[i].1@)))
}

/// Whether `entries` lists what `held` holds: every entry is a peer of the
/// map with its window, no peer is listed twice, and no peer is left out.
/// The order of the entries is free.
pub open spec fn lists(entries: Seq<(Seq<char>, Seq<nat>)>, held: Map<Seq<char>, Seq<nat>>) -> bool {
    &&& forall|i: int|
        #![trigger entries[i]]
        0 <= i < entries.len() ==> held.contains_key(entries[i].0) && held[entries[i].0]
            == entries[i].1
    &&& forall|i: int, j: int|
        #![trigger entries[i], entries[j]]
        0 <= i < j < entries.len() ==> entries[i].0 != entries[j].0
    &&& forall|peer: Seq<char>| #[trigger]
        held.contains_key(peer) ==> exists|i: int|
            #![trigger entries[i]]
            0 <= i < entries.len() && entries[i].0 == peer
}

/// The map that holds no window.
pub open spec fn no_windows() -> Map<Seq<char>, Seq<nat>> {
    Map::empty()
}

/// The window a map holds for a peer; empty where the peer has no entry.
pub open spec fn window_in(held: Map<Seq<char>, Seq<nat>>, peer: Seq<char>) -> Seq<nat> {
    if held.contains_key(peer) {
        held[peer]
    } else {
        Seq::empty()
    }
}

/// The map after one sample is recorded for a peer: the peer's window, or an
/// empty one where it had none, takes the sample; other peers keep theirs.
pub open spec fn after_record(
    held: Map<Seq<char>, Seq<nat>>,
    peer: Seq<char>,
    sample: nat,
    window_size: nat,
) -> Map<Seq<char>, Seq<nat>> {
    held.insert(peer, pushed(window_in(held, peer), sample, window_size))
}

/// The map after a peer is made known: a peer without a window gets an
/// empty one; a peer that has a window keeps it.
pub open spec fn after_track(held: Map<Seq<char>, Seq<nat>>, peer: Seq<char>) -> Map<
    Seq<char>,
    Seq<nat>,
> {
    if held.contains_key(peer) {
        held
    } else {
        held.insert(peer, Seq::empty())
    }
}

/// Whether no window of the map is longer than `window_size`.
pub open spec fn bounded_by(held: Map<Seq<char>, Seq<nat>>, window_size: nat) -> bool {
    forall|peer: Seq<char>| #[trigger] held.contains_key(peer) ==> held[peer].len() <= window_size
}

/// The map after a run of samples is recorded for one peer, one by one.
pub open spec fn after_records(
    held: Map<Seq<char>, Seq<nat>>,
    peer: Seq<char>,
    samples: Seq<nat>,
    window_size: nat,
) -> Map<Seq<char>, Seq<nat>>
    decreases samples.len(),
{
    if samples.len() == 0 {
        held
    } else {
        after_record(
            after_records(held, peer, samples.drop_last(), window_size),
            peer,
            samples.last(),
            window_size,
        )
    }
}

/// The map after a run of samples is recorded, each for its own peer, one by
/// one.
pub open spec fn after_events(
    held: Map<Seq<char>, Seq<nat>>,
    events: Seq<(Seq<char>, nat)>,
    window_size: nat,
) -> Map<Seq<char>, Seq<nat>>
    decreases events.len(),
{
    if events.len() == 0 {
        held
    } else {
        after_record(
            after_events(held, events.drop_last(), window_size),
            events.last().0,
            events.last().1,
            window_size,
        )
    }
}

/// Recording keeps every window within the window size.
pub proof fn lemma_record_stays_bounded(
    held: Map<Seq<char>, Seq<nat>>,
    peer: Seq<char>,
    sample: nat,
    window_size: nat,
)
    requires
        window_size > 0,
        bounded_by(held, window_size),
    ensures
        bounded_by(after_record(held, peer, sample, window_size), window_size),
        after_record(held, peer, sample, window_size)[peer].len() > 0,
{
    let after = after_record(held, peer, sample, window_size);
    assert forall|other: Seq<char>| #[trigger] after.contains_key(other) implies after[other].len()
        <= window_size by {
        if other != peer {
            assert(held.contains_key(other));
        }
    }
}

/// Making a peer known changes nothing of what later records give: a record
/// for the peer gives the same map with and without it.
pub proof fn lemma_track_then_record(
    held: Map<Seq<char>, Seq<nat>>,
    peer: Seq<char>,
    sample: nat,
    window_size: nat,
)
    ensures
        after_record(after_track(held, peer), peer, sample, window_size) == after_record(
            held,
            peer,
            sample,
            window_size,
        ),
{
    assert(window_in(after_track(held, peer), peer) =~= window_in(held, peer));
    assert(after_record(after_track(held, peer), peer, sample, window_size) =~= after_record(
        held,
        peer,
        sample,
        window_size,
    ));
}

/// Recording for one peer changes no other peer: whether it has a window,
/// and what its window holds.
pub proof fn lemma_record_spares_others(
    held: Map<Seq<char>, Seq<nat>>,
    peer: Seq<char>,
    sample: nat,
    window_size: nat,
    other: Seq<char>,
)
    requires
        other != peer,
    ensures
        after_record(held, peer, sample, window_size).contains_key(other) == held.contains_key(
            other,
        ),
        window_in(after_record(held, peer, sample, window_size), other) == window_in(held, other),
{
}

/// Records for two different peers give the same map in either order.
pub proof fn lemma_records_commute(
    held: Map<Seq<char>, Seq<nat>>,
    first: Seq<char>,
    first_sample: nat,
    second: Seq<char>,
    second_sample: nat,
    window_size: nat,
)
    requires
        first != second,
    ensures
        after_record(
            after_record(held, first, first_sample, window_size),
            second,
            second_sample,
            window_size,
        ) == after_record(
            after_record(held, second, second_sample, window_size),
            first,
            first_sample,
            window_size,
        ),
{
    let one = after_record(
        after_record(held, first, first_sample, window_size),
        second,
        second_sample,
        window_size,
    );
    let other = after_record(
        after_record(held, second, second_sample, window_size),
        first,
        first_sample,
        window_size,
    );
    assert(one =~= other);
}

/// After a run of samples recorded for one peer, that peer's window holds
/// the latest `window_size` of its earlier samples and the new ones, in the
/// order they came; no other peer has changed.
pub proof fn lemma_records_keep_latest(
    held: Map<Seq<char>, Seq<nat>>,
    peer: Seq<char>,
    samples: Seq<nat>,
    window_size: nat,
)
    requires
        window_size > 0,
        samples.len() > 0,
        bounded_by(held, window_size),
    ensures
        after_records(held, peer, samples, window_size) == held.insert(
            peer,
            latest(window_in(held, peer) + samples, window_size),
        ),
{
    lemma_records_fold(held, peer, samples, window_size);
    if held.contains_key(peer) {
        assert(held[peer].len() <= window_size);
    }
    lemma_recorded_keeps_latest(window_in(held, peer), samples, window_size);
}

/// A run of records for one peer folds into one change of its window.
proof fn lemma_records_fold(
    held: Map<Seq<char>, Seq<nat>>,
    peer: Seq<char>,
    samples: Seq<nat>,
    window_size: nat,
)
    requires
        samples.len() > 0,
    ensures
        after_records(held, peer, samples, window_size) == held.insert(
            peer,
            recorded(window_in(held, peer), samples, window_size),
        ),
    decreases samples.len(),
{
    let earlier = samples.drop_last();
    let start = window_in(held, peer);
    if earlier.len() == 0 {
        assert(after_records(held, peer, earlier, window_size) == held);
        assert(recorded(start, earlier, window_size) == start);
    } else {
        lemma_records_fold(held, peer, earlier, window_size);
        let before = after_records(held, peer, earlier, window_size);
        assert(window_in(before, peer) == recorded(start, earlier, window_size));
        assert(after_record(before, peer, samples.last(), window_size) =~= held.insert(
            peer,
            recorded(start, samples, window_size),
        ));
    }
}

/// After more records for a new peer than a window has room for, the
/// peer's window holds exactly `window_size` samples: the last ones
/// recorded, oldest first.
pub proof fn lemma_overfull_store(
    held: Map<Seq<char>, Seq<nat>>,
    peer: Seq<char>,
    samples: Seq<nat>,
    window_size: nat,
)
    requires
        window_size > 0,
        samples.len() > window_size,
        bounded_by(held, window_size),
        !held.contains_key(peer),
    ensures
        after_records(held, peer, samples, window_size)[peer].len() == window_size,
        after_records(held, peer, samples, window_size)[peer] == samples.subrange(
            samples.len() - window_size,
            samples.len() as int,
        ),
{
    lemma_records_keep_latest(held, peer, samples, window_size);
    assert(window_in(held, peer) + samples =~= samples);
}

/// One record for each of a number of different peers, made on an empty
/// map in any one order, leaves exactly those peers, each with a window
/// that holds its one sample.
pub proof fn lemma_one_record_each(events: Seq<(Seq<char>, nat)>, window_size: nat)
    requires
        window_size > 0,
        forall|i: int, j: int|
            #![trigger events[i], events[j]]
            0 <= i < j < events.len() ==> events[i].0 != events[j].0,
    ensures
        forall|peer: Seq<char>| #[trigger]
            after_events(no_windows(), events, window_size).contains_key(peer) <==> exists|i: int|
                #![trigger events[i]]
                0 <= i < events.len() && events[i].0 == peer,
        forall|i: int|
            #![trigger events[i]]
            0 <= i < events.len() ==> after_events(no_windows(), events, window_size)[events[i].0]
                == seq![events[i].1],
        after_events(no_windows(), events, window_size).dom().finite(),
        after_events(no_windows(), events, window_size).dom().len() == events.len(),
    decreases events.len(),
{
    let after = after_events(no_windows(), events, window_size);
    if events.len() > 0 {
        let earlier = events.drop_last();
        let before = after_events(no_windows(), earlier, window_size);
        let peer = events.last().0;
        assert forall|i: int, j: int|
            #![trigger earlier[i], earlier[j]]
            0 <= i < j < earlier.len() implies earlier[i].0 != earlier[j].0 by {
            assert(earlier[i] == events[i] && earlier[j] == events[j]);
        }
        lemma_one_record_each(earlier, window_size);
        if before.contains_key(peer) {
            let i = choose|i: int|
                #![trigger earlier[i]]
                0 <= i < earlier.len() && earlier[i].0 == peer;
            assert(earlier[i] == events[i]);
            assert(events[i].0 != events[events.len() - 1].0);
        }
        assert(window_in(before, peer) =~= Seq::<nat>::empty());
        assert(pushed(Seq::<nat>::empty(), events.last().1, window_size) =~= seq![events.last().1]);
        assert(after == before.insert(peer, seq![events.last().1]));
        assert(after.dom() =~= before.dom().insert(peer));
        assert forall|other: Seq<char>| #[trigger] after.contains_key(other) implies exists|i: int|
            #![trigger events[i]]
            0 <= i < events.len() && events[i].0 == other by {
            if other == peer {
                assert(events[events.len() - 1].0 == other);
            } else {
                let i = choose|i: int|
                    #![trigger earlier[i]]
                    0 <= i < earlier.len() && earlier[i].0 == other;
                assert(events[i].0 == other);
            }
        }
        assert forall|other: Seq<char>|
            (exists|i: int| #![trigger events[i]] 0 <= i < events.len() && events[i].0 == other)
            implies #[trigger] after.contains_key(other) by {
            let i = choose|i: int| #![trigger events[i]] 0 <= i < events.len() && events[i].0 == other;
            if i < earlier.len() {
                assert(earlier[i].0 == other);
                assert(before.contains_key(other));
            }
        }
        assert forall|i: int| #![trigger events[i]] 0 <= i < events.len() implies after[events[i].0]
            == seq![events[i].1] by {
            if i < earlier.len() {
                assert(earlier[i] == events[i]);
                assert(events[i].0 != events[events.len() - 1].0);
            }
        }
    } else {
        assert(after.dom() =~= Set::<Seq<char>>::empty());
    }
}

/// `CHashMap::new` makes a map without entries.
#[verifier::external_body]
fn new_map() -> (map: CHashMap<String, Vec<Duration>>)
    ensures
        windows(map) == no_windows(),
{
    CHashMap::new()
}

/// `CHashMap::get` finds the entry of a key; the window behind the guard it
/// returns is copied out. A peer without an entry gives `None`.
#[verifier::external_body]
fn window_of(map: &CHashMap<String, Vec<Duration>>, peer: &String) -> (window: Option<
    Vec<Duration>,
>)
    ensures
        match window {
            Some(w) => windows(*map).contains_key(peer@) && nanos_seq(w@) == windows(*map)[peer@],
            None => !windows(*map).contains_key(peer@),
        },
{
    map.get(peer).map(|guard| guard.to_vec())
}

/// `CHashMap::insert` sets the entry of a key, replacing the value of an
/// entry that exists, and leaves every other entry as it was.
#[verifier::external_body]
fn put_window(map: &mut CHashMap<String, Vec<Duration>>, peer: String, window: Vec<Duration>)
    ensures
        windows(*final(map)) == windows(*old(map)).insert(peer@, nanos_seq(window@)),
{
    map.insert(peer, window);
}

/// `CHashMap::clone` copies the map entry by entry.
#[verifier::external_body]
fn copy_of(map: &CHashMap<String, Vec<Duration>>) -> (copy: CHashMap<String, Vec<Duration>>)
    ensures
        windows(copy) == windows(*map),
{
    map.clone()
}

/// `CHashMap::into_iter` hands out each entry of the map once, in an order
/// that depends on how the keys were hashed.
#[verifier::external_body]
fn into_entries(map: CHashMap<String, Vec<Duration>>) -> (entries: Vec<(String, Vec<Duration>)>)
    ensures
        lists(entry_views(entries@), windows(map)),
{
    map.into_iter().collect()
}

/// A store of windows of duration samples, one per peer, each holding at
/// most `window_size` samples.
pub struct SampleStore {
    map: CHashMap<String, Vec<Duration>>,
    window_size: usize,
}

impl View for SampleStore {
    type V = Map<Seq<char>, Seq<nat>>;

    closed spec fn view(&self) -> Map<Seq<char>, Seq<nat>> {
        windows(self.map)
    }
}

impl SampleStore {
    /// The largest number of samples a window of this store keeps.
    pub closed spec fn capacity(&self) -> usize {
        self.window_size
    }

    /// The store's invariant: no window is longer than the window size.
    pub open spec fn wf(&self) -> bool {
        bounded_by(self@, self.capacity() as nat)
    }

    /// An empty store whose windows will hold up to `window_size` samples.
    pub fn new(window_size: usize) -> (store: SampleStore)
        ensures
            store@ == no_windows(),
            store.capacity() == window_size,
            store.wf(),
    {
        SampleStore { map: new_map(), window_size }
    }

    /// The window size the store was made with.
    pub fn window_size(&self) -> (size: usize)
        ensures
            size == self.capacity(),
    {
        self.window_size
    }

    /// Records a sample for a peer. A peer that is new to the store gets a
    /// window of its own; a window that is full gives up its oldest sample.
    /// A store with window size zero cannot record.
    pub fn record(&mut self, peer: String, sample: Duration)
        requires
            old(self).capacity() > 0,
        ensures
            final(self).capacity() == old(self).capacity(),
            final(self)@ == after_record(
                old(self)@,
                peer@,
                nanos(sample),
                old(self).capacity() as nat,
            ),
            old(self).wf() ==> final(self).wf(),
    {
        let mut window: Vec<Duration> = match window_of(&self.map, &peer) {
            Some(w) => w,
            None => Vec::new(),
        };
        let ghost before = window@;
        window.push_lossy(sample, self.window_size);
        proof {
            assert(nanos_seq(before) =~= window_in(old(self)@, peer@));
            assert(nanos_seq(window@) =~= pushed(
                nanos_seq(before),
                nanos(sample),
                self.window_size as nat,
            ));
        }
        put_window(&mut self.map, peer, window);
    }

    /// Makes a peer known to the store before any sample of it has come: the
    /// peer gets an empty window, unless it has a window already.
    pub fn track(&mut self, peer: String)
        ensures
            final(self).capacity() == old(self).capacity(),
            final(self)@ == after_track(old(self)@, peer@),
            old(self).wf() ==> final(self).wf(),
    {
        match window_of(&self.map, &peer) {
            Some(_) => {},
            None => {
                let window: Vec<Duration> = Vec::new();
                assert(nanos_seq(window@) =~= Seq::<nat>::empty());
                put_window(&mut self.map, peer, window);
            },
        }
    }

    /// The window held for a peer, oldest sample first, if the peer has one.
    pub fn window(&self, peer: &String) -> (window: Option<Vec<Duration>>)
        ensures
            match window {
                Some(w) => self@.contains_key(peer@) && nanos_seq(w@) == self@[peer@],
                None => !self@.contains_key(peer@),
            },
    {
        window_of(&self.map, peer)
    }

    /// A copy of every peer's window, each peer once, in no particular order.
    pub fn snapshot(&self) -> (entries: Vec<(String, Vec<Duration>)>)
        ensures
            lists(entry_views(entries@), self@),
    {
        into_entries(copy_of(&self.map))
    }
}

} // verus!
