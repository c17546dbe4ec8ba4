//! The statistics a node keeps of its peers: ping latencies and
//! transmission rates, and the report over both.

use crate::report::render_report;
use crate::report::report_text;
use crate::span::nanos;
use crate::span::nanos_seq;
use crate::store::after_record;
use crate::store::after_track;
use crate::store::bounded_by;
use crate::store::entry_views;
use crate::store::lists;
use crate::store::no_windows;
use crate::store::SampleStore;
use std::time::Duration;
use vstd::prelude::*;

verus! {

/// The samples a node has of its peers: the latest ping latencies and the
/// latest transmission rates per peer, in windows of one common size.
pub struct Stats {
    pings_to_peers: SampleStore,
    transmissions_rates: SampleStore,
    window_size: usize,
    peer_id: String,
}

impl Stats {
    /// The ping windows held, by peer, in nanoseconds.
    pub closed spec fn pings(&self) -> Map<Seq<char>, Seq<nat>> {
        self.pings_to_peers@
    }

    /// The transmission-rate windows held, by peer, in nanoseconds per byte.
    pub closed spec fn rates(&self) -> Map<Seq<char>, Seq<nat>> {
        self.transmissions_rates@
    }

    /// The largest number of samples kept per peer and measure.
    pub closed spec fn capacity(&self) -> usize {
        self.window_size
    }

    /// The identifier of the node that reports.
    pub closed spec fn name(&self) -> Seq<char> {
        self.peer_id@
    }

    /// Whether both stores were made with the common window size.
    pub closed spec fn consistent(&self) -> bool {
        &&& self.pings_to_peers.capacity() == self.window_size
        &&& self.transmissions_rates.capacity() == self.window_size
    }

    /// The invariant: no window of either measure is longer than the window
    /// size.
    pub open spec fn wf(&self) -> bool {
        &&& self.consistent()
        &&& bounded_by(self.pings(), self.capacity() as nat)
        &&& bounded_by(self.rates(), self.capacity() as nat)
    }

    /// Statistics without samples, for the node `peer_id`.
    pub fn new(window_size: usize, peer_id: String) -> (stats: Stats)
        ensures
            stats.wf(),
            stats.pings() == no_windows(),
            stats.rates() == no_windows(),
            stats.capacity() == window_size,
            stats.name() == peer_id@,
    {
        Stats {
            pings_to_peers: SampleStore::new(window_size),
            transmissions_rates: SampleStore::new(window_size),
            window_size,
            peer_id,
        }
    }

    /// The window size the statistics were made with.
    pub fn window_size(&self) -> (size: usize)
        ensures
            size == self.capacity(),
    {
        self.window_size
    }

    /// The identifier of the node that reports.
    pub fn peer_id(&self) -> (id: &String)
        ensures
            id@ == self.name(),
    {
        &self.peer_id
    }

    /// The store of ping latencies, for reading.
    pub fn ping_store(&self) -> (store: &SampleStore)
        ensures
            store@ == self.pings(),
            self.wf() ==> store.capacity() == self.capacity(),
    {
        &self.pings_to_peers
    }

    /// The store of transmission rates, for reading.
    pub fn transmission_store(&self) -> (store: &SampleStore)
        ensures
            store@ == self.rates(),
            self.wf() ==> store.capacity() == self.capacity(),
    {
        &self.transmissions_rates
    }

    /// Records a ping latency measured toward `peer`.
    pub fn record_ping(&mut self, peer: String, sample: Duration)
        requires
            old(self).wf(),
            old(self).capacity() > 0,
        ensures
            final(self).wf(),
            final(self).capacity() == old(self).capacity(),
            final(self).name() == old(self).name(),
            final(self).rates() == old(self).rates(),
            final(self).pings() == after_record(
                old(self).pings(),
                peer@,
                nanos(sample),
                old(self).capacity() as nat,
            ),
    {
        self.pings_to_peers.record(peer, sample);
    }

    /// Records a transmission rate measured toward `peer`.
    pub fn record_transmission(&mut self, peer: String, sample: Duration)
        requires
            old(self).wf(),
            old(self).capacity() > 0,
        ensures
            final(self).wf(),
            final(self).capacity() == old(self).capacity(),
            final(self).name() == old(self).name(),
            final(self).pings() == old(self).pings(),
            final(self).rates() == after_record(
                old(self).rates(),
                peer@,
                nanos(sample),
                old(self).capacity() as nat,
            ),
    {
        self.transmissions_rates.record(peer, sample);
    }

    /// Makes a peer known for its ping latencies before any was measured.
    /// Until a sample comes, the report says that there is no data for it.
    pub fn track_ping(&mut self, peer: String)
        requires
            old(self).wf(),
        ensures
            final(self).wf(),
            final(self).capacity() == old(self).capacity(),
            final(self).name() == old(self).name(),
            final(self).rates() == old(self).rates(),
            final(self).pings() == after_track(old(self).pings(), peer@),
    {
        self.pings_to_peers.track(peer);
    }

    /// Makes a peer known for its transmission rates before any was
    /// measured. Until a sample comes, the report says that there is no data
    /// for it.
    pub fn track_transmission(&mut self, peer: String)
        requires
            old(self).wf(),
        ensures
            final(self).wf(),
            final(self).capacity() == old(self).capacity(),
            final(self).name() == old(self).name(),
            final(self).pings() == old(self).pings(),
            final(self).rates() == after_track(old(self).rates(), peer@),
    {
        self.transmissions_rates.track(peer);
    }

    /// The ping window held for a peer, oldest sample first.
    pub fn ping_window(&self, peer: &String) -> (window: Option<Vec<Duration>>)
        ensures
            match window {
                Some(w) => self.pings().contains_key(peer@) && nanos_seq(w@) == self.pings()[peer@],
                None => !self.pings().contains_key(peer@),
            },
    {
        self.pings_to_peers.window(peer)
    }

    /// The transmission-rate window held for a peer, oldest sample first.
    pub fn transmission_window(&self, peer: &String) -> (window: Option<Vec<Duration>>)
        ensures
            match window {
                Some(w) => self.rates().contains_key(peer@) && nanos_seq(w@) == self.rates()[peer@],
                None => !self.rates().contains_key(peer@),
            },
    {
        self.transmissions_rates.window(peer)
    }

    /// The report over all peers: every peer of each measure has one line in
    /// the section of that measure. The order of the lines within a section
    /// is that of some listing of the windows held.
    pub fn to_report(&self) -> (text: String)
        ensures
            exists|pings: Seq<(Seq<char>, Seq<nat>)>, rates: Seq<(Seq<char>, Seq<nat>)>|
                #![trigger report_text(self.name(), pings, rates)]
                lists(pings, self.pings()) && lists(rates, self.rates()) && text@ == report_text(
                    self.name(),
                    pings,
                    rates,
                ),
    {
        let pings = self.pings_to_peers.snapshot();
        let rates = self.transmissions_rates.snapshot();
        let text = render_report(&self.peer_id, &pings, &rates);
        proof {
            assert(text@ == report_text(self.name(), entry_views(pings@), entry_views(rates@)));
        }
        text
    }
}

} // verus!
