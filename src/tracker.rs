//! Tracking of hosts across successive sweeps: a count of sightings per
//! hardware address, confirmation once the count reaches the debounce
//! threshold, and a new-host event the first time an address that was not
//! known before is confirmed.

use vstd::prelude::*;

use crate::mac::MacAddr;
use crate::sweep::SweepResult;
use crate::table::{keys_unique, pairs_map, MacTable};

verus! {

broadcast use vstd::seq_lib::lemma_seq_contains_after_push;

/// Sightings needed before a host counts as present, by default.
pub const DEFAULT_DEBOUNCE: u64 = 7;

/// Seconds between two polls, by default.
pub const DEFAULT_POLL_SECONDS: u64 = 10;

/// What the tracker remembers of one hardware address.
#[derive(Clone, Copy, Debug, PartialEq, Eq, Structural)]
pub struct HostRecord {
    pub mac: MacAddr,
    pub ip: u32,
    /// The poll in which the address was last seen.
    pub last_seen_poll: u64,
    /// The number of polls in which the address was seen.
    pub consecutive_hits: u64,
}

/// How the tracker treats each poll.
#[derive(Clone, Copy, Debug, PartialEq, Eq, Structural)]
pub struct TrackerConfig {
    pub debounce_threshold: u64,
    pub notify_on_new: bool,
}

/// Where a hardware address stands.
#[derive(Clone, Copy, Debug, PartialEq, Eq, Structural)]
pub enum HostState {
    Unseen,
    /// Seen this many times, fewer than the threshold.
    Pending(u64),
    Confirmed,
}

/// The number of polls in which `k` was seen, per `h`.
pub open spec fn hits_in(h: Map<MacAddr, HostRecord>, k: MacAddr) -> u64 {
    if h.contains_key(k) {
        h[k].consecutive_hits
    } else {
        0
    }
}

pub open spec fn confirmed_in(h: Map<MacAddr, HostRecord>, k: MacAddr, threshold: u64) -> bool {
    h.contains_key(k) && h[k].consecutive_hits >= threshold
}

pub open spec fn state_in(h: Map<MacAddr, HostRecord>, k: MacAddr, threshold: u64) -> HostState {
    if !h.contains_key(k) {
        HostState::Unseen
    } else if h[k].consecutive_hits >= threshold {
        HostState::Confirmed
    } else {
        HostState::Pending(h[k].consecutive_hits)
    }
}

/// The record of `k` after it was seen at `ip` in poll `poll`.
pub open spec fn seen_record(h: Map<MacAddr, HostRecord>, k: MacAddr, ip: u32, poll: u64) -> HostRecord {
    HostRecord { mac: k, ip, last_seen_poll: poll, consecutive_hits: (hits_in(h, k) + 1) as u64 }
}

/// The history after poll `poll` observed `sweep`: every address of the
/// sweep gets its new address, the poll, and one more sighting; the others
/// keep their record.
pub open spec fn next_history(
    h: Map<MacAddr, HostRecord>,
    sweep: Map<MacAddr, u32>,
    poll: u64,
) -> Map<MacAddr, HostRecord> {
    Map::new(
        |k: MacAddr| h.contains_key(k) || sweep.contains_key(k),
        |k: MacAddr|
            if sweep.contains_key(k) {
                seen_record(h, k, sweep[k], poll)
            } else {
                h[k]
            },
    )
}

/// `k` becomes confirmed in the poll that observed `sweep`.
pub open spec fn newly_confirmed(
    h: Map<MacAddr, HostRecord>,
    sweep: Map<MacAddr, u32>,
    threshold: u64,
    k: MacAddr,
) -> bool {
    sweep.contains_key(k) && !confirmed_in(h, k, threshold) && hits_in(h, k) + 1 >= threshold
}

/// The known addresses after the poll: those known before, and those that
/// became confirmed.
pub open spec fn next_known(
    known: Set<MacAddr>,
    h: Map<MacAddr, HostRecord>,
    sweep: Map<MacAddr, u32>,
    threshold: u64,
) -> Set<MacAddr> {
    known.union(Set::new(|k: MacAddr| newly_confirmed(h, sweep, threshold, k)))
}

/// The addresses for which the poll emits a new-host event: those that
/// became confirmed and were not known, where events are asked for.
pub open spec fn new_hosts(
    known: Set<MacAddr>,
    h: Map<MacAddr, HostRecord>,
    sweep: Map<MacAddr, u32>,
    config: TrackerConfig,
) -> Set<MacAddr> {
    Set::new(
        |k: MacAddr|
            config.notify_on_new && newly_confirmed(h, sweep, config.debounce_threshold, k)
                && !known.contains(k),
    )
}

/// The state of the tracker between two polls.
pub struct TrackerState {
    history: MacTable<HostRecord>,
    known_macs: MacTable<()>,
    poll_index: u64,
}

impl TrackerState {
    pub closed spec fn history_spec(&self) -> Map<MacAddr, HostRecord> {
        self.history@
    }

    pub closed spec fn known_spec(&self) -> Set<MacAddr> {
        self.known_macs@.dom()
    }

    /// The number of polls done so far; also the index of the next poll.
    pub closed spec fn poll_spec(&self) -> u64 {
        self.poll_index
    }

    /// Each record is filed under its own address, was seen in an earlier
    /// poll, and counts at least one and at most as many sightings as
    /// there were polls.
    pub open spec fn wf(&self) -> bool {
        forall|k: MacAddr|
            #[trigger] self.history_spec().contains_key(k) ==> {
                let r = self.history_spec()[k];
                &&& r.mac == k
                &&& 1 <= r.consecutive_hits <= self.poll_spec()
                &&& r.last_seen_poll < self.poll_spec()
            }
    }

    /// A tracker with no history, which knows the addresses of `known`
    /// from earlier runs.
    pub fn new(known: &Vec<MacAddr>) -> (r: TrackerState)
        ensures
            r.wf(),
            r.history_spec() == Map::<MacAddr, HostRecord>::empty(),
            r.known_spec() == known@.to_set(),
            r.poll_spec() == 0,
    {
        let mut known_macs: MacTable<()> = MacTable::new();
        let mut i: usize = 0;
        while i < known.len()
            invariant
                i <= known@.len(),
                known_macs@.dom() == known@.take(i as int).to_set(),
            decreases known@.len() - i,
        {
            known_macs.insert(known[i], ());
            assert(known@.take(i + 1) =~= known@.take(i as int).push(known@[i as int]));
            assert(known@.take(i as int).push(known@[i as int]).to_set() =~= known@.take(
                i as int,
            ).to_set().insert(known@[i as int]));
            i = i + 1;
        }
        assert(known@.take(known@.len() as int) =~= known@);
        TrackerState { history: MacTable::new(), known_macs, poll_index: 0 }
    }

    pub fn poll_index(&self) -> (r: u64)
        ensures
            r == self.poll_spec(),
    {
        self.poll_index
    }

    /// The record of the address, if it was ever seen.
    pub fn record(&self, mac: &MacAddr) -> (r: Option<HostRecord>)
        ensures
            r == if self.history_spec().contains_key(*mac) {
                Some(self.history_spec()[*mac])
            } else {
                None::<HostRecord>
            },
    {
        match self.history.get(mac) {
            Some(rec) => Some(*rec),
            None => None,
        }
    }

    /// Whether the address is known: from an earlier run, or confirmed in
    /// this one.
    pub fn is_known(&self, mac: &MacAddr) -> (r: bool)
        ensures
            r == self.known_spec().contains(*mac),
    {
        self.known_macs.contains(mac)
    }

    /// Where the address stands for the given threshold.
    pub fn host_state(&self, mac: &MacAddr, threshold: u64) -> (r: HostState)
        ensures
            r == state_in(self.history_spec(), *mac, threshold),
    {
        match self.history.get(mac) {
            None => HostState::Unseen,
            Some(rec) => {
                if rec.consecutive_hits >= threshold {
                    HostState::Confirmed
                } else {
                    HostState::Pending(rec.consecutive_hits)
                }
            },
        }
    }

    /// Records one poll that observed `sweep`, and returns the addresses
    /// that get a new-host event, each once, in the order of the sweep.
    pub fn observe(&mut self, sweep: &SweepResult, config: &TrackerConfig) -> (events: Vec<MacAddr>)
        requires
            old(self).wf(),
            old(self).poll_spec() < u64::MAX,
        ensures
            final(self).wf(),
            final(self).poll_spec() == old(self).poll_spec() + 1,
            final(self).history_spec() == next_history(
                old(self).history_spec(),
                sweep@,
                old(self).poll_spec(),
            ),
            final(self).known_spec() == next_known(
                old(self).known_spec(),
                old(self).history_spec(),
                sweep@,
                config.debounce_threshold,
            ),
            events@.to_set() == new_hosts(
                old(self).known_spec(),
                old(self).history_spec(),
                sweep@,
                *config,
            ),
            events@.no_duplicates(),
    {
        let ghost h0 = self.history@;
        let ghost k0 = self.known_macs@.dom();
        let poll = self.poll_index;
        let threshold = config.debounce_threshold;
        let entries = sweep.entries();
        let mut events: Vec<MacAddr> = Vec::new();
        let mut j: usize = 0;
        assert forall|k: MacAddr| #[trigger] h0.contains_key(k) implies {
            let r = h0[k];
            &&& r.mac == k
            &&& 1 <= r.consecutive_hits <= poll
            &&& r.last_seen_poll < poll
        } by {
            assert(old(self).history_spec().contains_key(k));
        }
        assert(pairs_map(entries@.take(0)) =~= Map::<MacAddr, u32>::empty());
        assert(self.history@ =~= next_history(h0, pairs_map(entries@.take(0)), poll));
        assert(self.known_macs@.dom() =~= next_known(k0, h0, pairs_map(entries@.take(0)), threshold));
        assert(events@.to_set() =~= new_hosts(k0, h0, pairs_map(entries@.take(0)), *config));
        while j < entries.len()
            invariant
                j <= entries@.len(),
                entries@ == sweep.pairs(),
                keys_unique(entries@),
                poll == self.poll_index,
                poll < u64::MAX,
                threshold == config.debounce_threshold,
                self.poll_index == old(self).poll_index,
                h0 == old(self).history@,
                k0 == old(self).known_macs@.dom(),
                forall|k: MacAddr|
                    #[trigger] h0.contains_key(k) ==> {
                        let r = h0[k];
                        &&& r.mac == k
                        &&& 1 <= r.consecutive_hits <= poll
                        &&& r.last_seen_poll < poll
                    },
                self.history@ == next_history(h0, pairs_map(entries@.take(j as int)), poll),
                self.known_macs@.dom() == next_known(
                    k0,
                    h0,
                    pairs_map(entries@.take(j as int)),
                    threshold,
                ),
                events@.to_set() == new_hosts(k0, h0, pairs_map(entries@.take(j as int)), *config),
                events@.no_duplicates(),
                forall|x: MacAddr|
                    events@.contains(x) ==> #[trigger] pairs_map(entries@.take(j as int)).contains_key(x),
            decreases entries@.len() - j,
        {
            let (mac, ip) = entries[j];
            let ghost pre = pairs_map(entries@.take(j as int));
            let ghost post = pairs_map(entries@.take(j + 1));
            proof {
                assert(entries@.take(j + 1).drop_last() =~= entries@.take(j as int));
                assert(post == pre.insert(mac, ip));
                assert forall|i: int| 0 <= i < entries@.take(j as int).len() implies #[trigger] entries@.take(
                    j as int,
                )[i].0 != mac by {
                    assert(entries@.take(j as int)[i] == entries@[i]);
                    assert(entries@[j as int].0 == mac);
                }
                crate::table::lemma_pairs_map_absent(entries@.take(j as int), mac);
                assert(!pre.contains_key(mac));
            }
            let previous = self.history.get(&mac);
            let was_confirmed = match previous {
                Some(rec) => rec.consecutive_hits >= threshold,
                None => false,
            };
            let hits: u64 = match previous {
                Some(rec) => rec.consecutive_hits + 1,
                None => 1,
            };
            let rec = HostRecord { mac, ip, last_seen_poll: poll, consecutive_hits: hits };
            self.history.insert(mac, rec);
            proof {
                assert(rec == seen_record(h0, mac, ip, poll));
                assert(self.history@ =~= next_history(h0, post, poll));
                assert(was_confirmed == confirmed_in(h0, mac, threshold));
            }
            if !was_confirmed && hits >= threshold {
                if !self.known_macs.contains(&mac) {
                    if config.notify_on_new {
                        assert(!events@.contains(mac));
                        events.push(mac);
                    }
                }
                self.known_macs.insert(mac, ());
            }
            proof {
                assert(newly_confirmed(h0, post, threshold, mac) == (!was_confirmed && hits
                    >= threshold));
                assert forall|k: MacAddr| k != mac implies newly_confirmed(h0, post, threshold, k)
                    == newly_confirmed(h0, pre, threshold, k) by {}
                assert(self.known_macs@.dom() =~= next_known(k0, h0, post, threshold));
                assert forall|k: MacAddr| k != mac implies #[trigger] new_hosts(
                    k0,
                    h0,
                    post,
                    *config,
                ).contains(k) == new_hosts(k0, h0, pre, *config).contains(k) by {}
                assert(events@.to_set() =~= new_hosts(k0, h0, post, *config));
                assert forall|x: MacAddr| events@.contains(x) implies #[trigger] post.contains_key(
                    x,
                ) by {
                    if x != mac {
                        assert(pre.contains_key(x));
                    }
                }
            }
            j = j + 1;
        }
        proof {
            assert(entries@.take(entries@.len() as int) =~= entries@);
        }
        self.poll_index = poll + 1;
        events
    }
}

/// A host seen one time fewer than the threshold is pending; the next poll
/// that sees it confirms it, and that poll is the one in which it becomes
/// confirmed.
pub proof fn lemma_debounce_confirms(
    h: Map<MacAddr, HostRecord>,
    sweep: Map<MacAddr, u32>,
    threshold: u64,
    poll: u64,
    k: MacAddr,
)
    requires
        h.contains_key(k),
        h[k].consecutive_hits + 1 == threshold,
        sweep.contains_key(k),
    ensures
        state_in(h, k, threshold) == HostState::Pending((threshold - 1) as u64),
        newly_confirmed(h, sweep, threshold, k),
        state_in(next_history(h, sweep, poll), k, threshold) == HostState::Confirmed,
{
}

/// An address becomes confirmed at most once: after the poll that confirms
/// it, no later poll confirms it again, and it stays confirmed whether or
/// not later polls see it.
pub proof fn lemma_confirmed_once(
    h: Map<MacAddr, HostRecord>,
    first: Map<MacAddr, u32>,
    second: Map<MacAddr, u32>,
    threshold: u64,
    poll: u64,
    k: MacAddr,
)
    requires
        newly_confirmed(h, first, threshold, k),
        hits_in(h, k) + 2 <= u64::MAX,
    ensures
        confirmed_in(next_history(h, first, poll), k, threshold),
        !newly_confirmed(next_history(h, first, poll), second, threshold, k),
        confirmed_in(next_history(next_history(h, first, poll), second, (poll + 1) as u64), k, threshold),
{
}

/// The history after a run of polls, the first of them numbered `poll`.
pub open spec fn run_history(
    h: Map<MacAddr, HostRecord>,
    poll: u64,
    sweeps: Seq<Map<MacAddr, u32>>,
) -> Map<MacAddr, HostRecord>
    decreases sweeps.len(),
{
    if sweeps.len() == 0 {
        h
    } else {
        next_history(
            run_history(h, poll, sweeps.drop_last()),
            sweeps.last(),
            (poll + sweeps.len() - 1) as u64,
        )
    }
}

/// The known addresses after a run of polls.
pub open spec fn run_known(
    known: Set<MacAddr>,
    h: Map<MacAddr, HostRecord>,
    poll: u64,
    sweeps: Seq<Map<MacAddr, u32>>,
    threshold: u64,
) -> Set<MacAddr>
    decreases sweeps.len(),
{
    if sweeps.len() == 0 {
        known
    } else {
        next_known(
            run_known(known, h, poll, sweeps.drop_last(), threshold),
            run_history(h, poll, sweeps.drop_last()),
            sweeps.last(),
            threshold,
        )
    }
}

/// The new-host events of the `i`-th poll of a run.
pub open spec fn run_events(
    known: Set<MacAddr>,
    h: Map<MacAddr, HostRecord>,
    poll: u64,
    sweeps: Seq<Map<MacAddr, u32>>,
    config: TrackerConfig,
    i: int,
) -> Set<MacAddr> {
    new_hosts(
        run_known(known, h, poll, sweeps.take(i), config.debounce_threshold),
        run_history(h, poll, sweeps.take(i)),
        sweeps[i],
        config,
    )
}

proof fn lemma_known_grows(
    known: Set<MacAddr>,
    h: Map<MacAddr, HostRecord>,
    poll: u64,
    sweeps: Seq<Map<MacAddr, u32>>,
    threshold: u64,
    i: int,
    j: int,
)
    requires
        0 <= i <= j <= sweeps.len(),
    ensures
        run_known(known, h, poll, sweeps.take(i), threshold).subset_of(
            run_known(known, h, poll, sweeps.take(j), threshold),
        ),
    decreases j - i,
{
    if i < j {
        lemma_known_grows(known, h, poll, sweeps, threshold, i, j - 1);
        assert(sweeps.take(j).drop_last() =~= sweeps.take(j - 1));
    }
}

/// Over any run of polls, the new-host event for an address fires in at
/// most one poll.
pub proof fn lemma_new_host_at_most_once(
    known: Set<MacAddr>,
    h: Map<MacAddr, HostRecord>,
    poll: u64,
    sweeps: Seq<Map<MacAddr, u32>>,
    config: TrackerConfig,
    i: int,
    j: int,
    k: MacAddr,
)
    requires
        0 <= i < j < sweeps.len(),
    ensures
        !(run_events(known, h, poll, sweeps, config, i).contains(k) && run_events(
            known,
            h,
            poll,
            sweeps,
            config,
            j,
        ).contains(k)),
{
    let t = config.debounce_threshold;
    assert(sweeps.take(i + 1).drop_last() =~= sweeps.take(i));
    assert(sweeps.take(i + 1).last() == sweeps[i]);
    lemma_known_grows(known, h, poll, sweeps, t, i + 1, j);
}

/// The answer of a monitor query for one watched address.
#[derive(Clone, Copy, Debug, PartialEq, Eq, Structural)]
pub enum MonitorStatus {
    /// The address answered from this IPv4 address.
    Exists(u32),
    Unavailable,
}

pub open spec fn monitor_status(result: Map<MacAddr, u32>, mac: MacAddr) -> MonitorStatus {
    if result.contains_key(mac) {
        MonitorStatus::Exists(result[mac])
    } else {
        MonitorStatus::Unavailable
    }
}

/// For each watched address, in order, whether the latest sweep saw it and
/// from which IPv4 address; debounce plays no part.
pub fn monitor_check(watch: &Vec<MacAddr>, result: &SweepResult) -> (r: Vec<MonitorStatus>)
    ensures
        r@.len() == watch@.len(),
        forall|i: int| 0 <= i < watch@.len() ==> r@[i] == monitor_status(result@, #[trigger] watch@[i]),
{
    let mut r: Vec<MonitorStatus> = Vec::new();
    let mut i: usize = 0;
    while i < watch.len()
        invariant
            i <= watch@.len(),
            r@.len() == i,
            forall|j: int| 0 <= j < i ==> r@[j] == monitor_status(result@, #[trigger] watch@[j]),
        decreases watch@.len() - i,
    {
        let status = match result.get(&watch[i]) {
            Some(ip) => MonitorStatus::Exists(*ip),
            None => MonitorStatus::Unavailable,
        };
        r.push(status);
        i = i + 1;
    }
    r
}

} // verus!
