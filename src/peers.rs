use vstd::prelude::*;
use std::collections::HashMap;
use rand::seq::IteratorRandom;

verus! {

broadcast use vstd::std_specs::hash::group_hash_axioms;

/// Where a known peer is in its connection lifecycle.
#[derive(Clone, Copy, Debug, PartialEq, Eq, Hash, Structural)]
pub enum PeerState {
    /// Discovered; no connection attempt yet.
    Found,
    /// Dial in progress.
    Connecting,
    /// Connection established.
    Connected,
    /// Graceful teardown started.
    Disconnecting,
    /// Terminal: removed by the next sweep.
    Disconnected,
}

/// Which part of the content space a peer serves: shard `shard_id` of `num_shard`.
#[derive(Clone, Copy, Debug, PartialEq, Eq, Structural)]
pub struct ShardConfig {
    pub num_shard: usize,
    pub shard_id: usize,
}

impl Default for ShardConfig {
    /// The whole content space: one shard.
    fn default() -> (r: Self)
        ensures
            r.num_shard == 1,
            r.shard_id == 0,
    {
        ShardConfig { num_shard: 1, shard_id: 0 }
    }
}

/// What the table knows of one peer.
#[derive(Debug)]
pub struct PeerInfo {
    /// The reported or connected address of the peer.
    pub addr: String,
    /// The current state of the peer.
    pub state: PeerState,
    pub shard_config: ShardConfig,
    /// When the state last changed (nanoseconds, caller's clock).
    pub since: u64,
}

/// Deadlines of the transitional states, in nanoseconds.
#[derive(Clone, Copy, Debug)]
pub struct SyncConfig {
    pub peer_connect_timeout: u64,
    pub peer_disconnect_timeout: u64,
}

impl Default for SyncConfig {
    /// Fifteen seconds for a dial and for a teardown.
    fn default() -> (r: Self)
        ensures
            r.peer_connect_timeout == 15_000_000_000,
            r.peer_disconnect_timeout == 15_000_000_000,
    {
        SyncConfig { peer_connect_timeout: 15_000_000_000, peer_disconnect_timeout: 15_000_000_000 }
    }
}

/// The known sync peers, each with its address, state, shard config and the time of its
/// last state change. Peer identities are integer keys.
pub struct SyncPeers {
    config: SyncConfig,
    peers: HashMap<u64, PeerInfo>,
}

impl SyncPeers {
    pub closed spec fn config(&self) -> SyncConfig {
        self.config
    }

    pub closed spec fn peers(&self) -> Map<u64, PeerInfo> {
        self.peers@
    }

    /// The peers whose state is one of `states`.
    pub open spec fn in_states(&self, states: Seq<PeerState>) -> Set<u64> {
        self.peers().dom().filter(|k: u64| states.contains(self.peers()[k].state))
    }

    /// Those of `states` that some peer is in, each with how many peers are in it.
    pub open spec fn histogram_matches(&self, r: Seq<(PeerState, u64)>) -> bool {
        &&& forall|i: int| 0 <= i < r.len() ==> r[i].1 == self.in_states(seq![r[i].0]).len()
        &&& forall|i: int| 0 <= i < r.len() ==> r[i].1 > 0
        &&& forall|s: PeerState| self.in_states(seq![s]).len() > 0 ==> exists|i: int| 0 <= i < r.len() && r[i].0 == s
        &&& forall|i: int, j: int| 0 <= i < j < r.len() ==> r[i].0 != r[j].0
    }

    /// An empty table with the given deadlines.
    pub fn new(config: SyncConfig) -> (r: Self)
        ensures
            r.config() == config,
            r.peers() == Map::<u64, PeerInfo>::empty(),
    {
        SyncPeers { config, peers: HashMap::new() }
    }

    /// The peers whose state is one of `state`, each once, in no particular order.
    pub fn filter_peers(&self, state: Vec<PeerState>) -> (r: Vec<u64>)
        ensures
            r@.no_duplicates(),
            r@.to_set() == self.in_states(state@),
    {
        let sel = Selector::InStates(state);
        let r = self.select(&sel);
        assert(self.selected(sel) =~= self.in_states(state@));
        r
    }

    /// How many peers are in one of `states`.
    pub fn count(&self, states: &[PeerState]) -> (r: usize)
        ensures
            r == self.in_states(states@).len(),
    {
        let ids = self.filter_peers(vstd::slice::slice_to_vec(states));
        proof {
            ids@.unique_seq_to_set();
        }
        ids.len()
    }

    /// How many peers are in each state, for the states that some peer is in.
    pub fn states(&self) -> (r: Vec<(PeerState, u64)>)
        ensures
            self.histogram_matches(r@),
    {
        let mut r: Vec<(PeerState, u64)> = Vec::new();
        let all = [
            PeerState::Found,
            PeerState::Connecting,
            PeerState::Connected,
            PeerState::Disconnecting,
            PeerState::Disconnected,
        ];
        let mut i: usize = 0;
        while i < 5
            invariant
                i <= 5,
                all@ == seq![PeerState::Found, PeerState::Connecting, PeerState::Connected, PeerState::Disconnecting, PeerState::Disconnected],
                forall|j: int| 0 <= j < r.len() ==> r@[j].1 == self.in_states(seq![r@[j].0]).len(),
                forall|j: int| 0 <= j < r.len() ==> r@[j].1 > 0,
                forall|j: int| 0 <= j < r.len() ==> state_index(#[trigger] r@[j].0) < i,
                forall|k: int| 0 <= k < 5 ==> state_index(#[trigger] all@[k]) == k,
                forall|k: int| 0 <= k < i && self.in_states(seq![all@[k]]).len() > 0 ==> exists|j: int| 0 <= j < r.len() && r@[j].0 == all@[k],
                forall|j1: int, j2: int| 0 <= j1 < j2 < r.len() ==> state_index(r@[j1].0) < state_index(r@[j2].0),
            decreases 5 - i,
        {
            let s = all[i];
            let one = [s];
            let n = self.count(&one);
            assert(one@ == seq![s]);
            let ghost before = r@;
            if n > 0 {
                r.push((s, n as u64));
            }
            proof {
                assert forall|k: int| 0 <= k < i + 1 && self.in_states(seq![all@[k]]).len() > 0 implies exists|j: int| 0 <= j < r.len() && r@[j].0 == all@[k] by {
                    if k < i {
                        let j = choose|j: int| 0 <= j < before.len() && before[j].0 == all@[k];
                        assert(r@[j] == before[j]);
                    } else {
                        assert(r@[r.len() - 1].0 == s);
                    }
                }
            }
            i = i + 1;
        }
        assert forall|s: PeerState| self.in_states(seq![s]).len() > 0 implies exists|j: int| 0 <= j < r.len() && r@[j].0 == s by {
            let k = state_index(s);
            assert(all@[k] == s);
        }
        r
    }

    /// Records `peer_id` as Found at `now`, unless it is known with this very shard
    /// config, in which case nothing changes and the answer is false. A peer known with
    /// another shard config starts over as Found.
    pub fn add_new_peer_with_config(
        &mut self,
        peer_id: u64,
        addr: String,
        shard_config: ShardConfig,
        now: u64,
    ) -> (r: bool)
        ensures
            final(self).config() == old(self).config(),
            r == !(old(self).peers().contains_key(peer_id) && old(self).peers()[peer_id].shard_config == shard_config),
            r ==> final(self).peers() == old(self).peers().insert(
                peer_id,
                (PeerInfo { addr, state: PeerState::Found, shard_config, since: now }),
            ),
            !r ==> final(self).peers() == old(self).peers(),
    {
        match self.peers.get(&peer_id) {
            Some(info) => {
                if info.shard_config == shard_config {
                    return false;
                }
            },
            None => {},
        }
        self.peers.insert(peer_id, PeerInfo { addr, state: PeerState::Found, shard_config, since: now });
        true
    }

    /// Records `peer_id` as Found at `now` with the default shard config.
    pub fn add_new_peer(&mut self, peer_id: u64, addr: String, now: u64) -> (r: bool)
        ensures
            final(self).config() == old(self).config(),
            r == !(old(self).peers().contains_key(peer_id)
                && old(self).peers()[peer_id].shard_config == (ShardConfig { num_shard: 1, shard_id: 0 })),
            r ==> final(self).peers() == old(self).peers().insert(
                peer_id,
                (PeerInfo { addr, state: PeerState::Found, shard_config: ShardConfig { num_shard: 1, shard_id: 0 }, since: now }),
            ),
            !r ==> final(self).peers() == old(self).peers(),
    {
        self.add_new_peer_with_config(peer_id, addr, ShardConfig::default(), now)
    }

    /// Moves `peer_id` from `from` to `to`, stamping the change with `now`. None for an
    /// unknown peer; Some(false), with nothing changed, when the peer is not in `from`.
    pub fn update_state(&mut self, peer_id: &u64, from: PeerState, to: PeerState, now: u64) -> (r: Option<bool>)
        ensures
            final(self).config() == old(self).config(),
            !old(self).peers().contains_key(*peer_id) ==> r is None && final(self).peers() == old(self).peers(),
            old(self).peers().contains_key(*peer_id) && old(self).peers()[*peer_id].state != from ==> r == Some(false)
                && final(self).peers() == old(self).peers(),
            old(self).peers().contains_key(*peer_id) && old(self).peers()[*peer_id].state == from ==> r == Some(true)
                && final(self).peers() == old(self).peers().insert(
                *peer_id,
                (PeerInfo {
                    addr: old(self).peers()[*peer_id].addr,
                    state: to,
                    shard_config: old(self).peers()[*peer_id].shard_config,
                    since: now,
                }),
            ),
    {
        match self.peers.get(peer_id) {
            None => return None,
            Some(info) => {
                if info.state != from {
                    return Some(false);
                }
            },
        }
        let info = self.peers.remove(peer_id).unwrap();
        self.peers.insert(*peer_id, PeerInfo { addr: info.addr, state: to, shard_config: info.shard_config, since: now });
        Some(true)
    }

    /// Puts `peer_id` in `state` whatever its state was, stamping the change with `now`,
    /// and returns that state (None for an unknown peer).
    pub fn update_state_force(&mut self, peer_id: &u64, state: PeerState, now: u64) -> (r: Option<PeerState>)
        ensures
            final(self).config() == old(self).config(),
            !old(self).peers().contains_key(*peer_id) ==> r is None && final(self).peers() == old(self).peers(),
            old(self).peers().contains_key(*peer_id) ==> r == Some(old(self).peers()[*peer_id].state)
                && final(self).peers() == old(self).peers().insert(
                *peer_id,
                (PeerInfo {
                    addr: old(self).peers()[*peer_id].addr,
                    state,
                    shard_config: old(self).peers()[*peer_id].shard_config,
                    since: now,
                }),
            ),
    {
        match self.peers.remove(peer_id) {
            None => None,
            Some(info) => {
                let old_state = info.state;
                self.peers.insert(*peer_id, PeerInfo { addr: info.addr, state, shard_config: info.shard_config, since: now });
                Some(old_state)
            },
        }
    }

    /// The state of `peer_id`, if it is known.
    pub fn peer_state(&self, peer_id: &u64) -> (r: Option<PeerState>)
        ensures
            r == (if self.peers().contains_key(*peer_id) { Some(self.peers()[*peer_id].state) } else { None }),
    {
        match self.peers.get(peer_id) {
            Some(info) => Some(info.state),
            None => None,
        }
    }

    /// The shard config of `peer_id`, if it is known.
    pub fn shard_config(&self, peer_id: &u64) -> (r: Option<ShardConfig>)
        ensures
            r == (if self.peers().contains_key(*peer_id) { Some(self.peers()[*peer_id].shard_config) } else { None }),
    {
        match self.peers.get(peer_id) {
            Some(info) => Some(info.shard_config),
            None => None,
        }
    }

    /// A peer in `state` with its address, drawn uniformly at random; None when no peer
    /// is in `state`.
    pub fn random_peer(&self, state: PeerState) -> (r: Option<(u64, String)>)
        ensures
            r is None <==> self.in_states(seq![state]).is_empty(),
            r matches Some((id, addr)) ==> self.peers().contains_key(id) && self.peers()[id].state == state
                && addr == self.peers()[id].addr,
    {
        let mut states: Vec<PeerState> = Vec::new();
        states.push(state);
        let ids = self.filter_peers(states);
        proof {
            ids@.unique_seq_to_set();
        }
        match pick_index(ids.len()) {
            None => {
                assert(self.in_states(seq![state]).len() == 0);
                None
            },
            Some(i) => {
                let id = ids[i];
                assert(ids@.to_set().contains(id));
                let info = self.peers.get(&id).unwrap();
                Some((id, info.addr.clone()))
            },
        }
    }

    /// The shard configs of the peers in one of `state`, handed to `covers`, which
    /// answers whether they cover the whole content space.
    pub fn all_shards_available<F: Fn(Vec<ShardConfig>) -> bool>(&self, state: Vec<PeerState>, covers: F) -> (r: bool)
        requires
            forall|cs: Vec<ShardConfig>| covers.requires((cs,)),
        ensures
            exists|ids: Seq<u64>, cs: Vec<ShardConfig>|
                {
                    &&& #[trigger] ids.no_duplicates()
                    &&& ids.to_set() == self.in_states(state@)
                    &&& cs@ == ids.map_values(|k: u64| self.peers()[k].shard_config)
                    &&& #[trigger] covers.ensures((cs,), r)
                },
    {
        let ids = self.filter_peers(state);
        let mut configs: Vec<ShardConfig> = Vec::new();
        let mut i: usize = 0;
        while i < ids.len()
            invariant
                i <= ids.len(),
                ids@.to_set() == self.in_states(state@),
                configs@ == ids@.take(i as int).map_values(|k: u64| self.peers()[k].shard_config),
            decreases ids.len() - i,
        {
            assert(ids@.to_set().contains(ids@[i as int]));
            let info = self.peers.get(&ids[i]).unwrap();
            configs.push(info.shard_config);
            i = i + 1;
            assert(configs@ =~= ids@.take(i as int).map_values(|k: u64| self.peers()[k].shard_config));
        }
        assert(ids@.take(ids.len() as int) =~= ids@);
        let ghost cs = configs;
        let r = covers(configs);
        assert(covers.ensures((cs,), r));
        assert(ids@.no_duplicates());
        r
    }

    /// One sweep at `now`: removes the peers stuck in Connecting or Disconnecting past their
    /// deadline and those in Disconnected, and returns the peers removed for a dial
    /// timeout, which are to be reported and dropped from the file-location cache.
    pub fn transition(&mut self, now: u64) -> (r: Vec<u64>)
        ensures
            final(self).config() == old(self).config(),
            final(self).peers() == old(self).peers().remove_keys(old(self).expired_peers(now)),
            r@.no_duplicates(),
            r@.to_set() == old(self).peers().dom().filter(|k: u64| dial_timed_out(old(self).config(), old(self).peers()[k], now)),
    {
        let dial_timeouts = self.select(&Selector::DialTimeout(now));
        let bad = self.select(&Selector::Expired(now));
        let ghost start = self.peers@;
        let mut i: usize = 0;
        while i < bad.len()
            invariant
                i <= bad.len(),
                self.config == old(self).config,
                self.peers@ == start.remove_keys(bad@.take(i as int).to_set()),
            decreases bad.len() - i,
        {
            let ghost prev = self.peers@;
            self.peers.remove(&bad[i]);
            assert(bad@.take(i + 1) =~= bad@.take(i as int) + seq![bad@[i as int]]);
            proof {
                Seq::lemma_to_set_insert_commutes(bad@.take(i as int), bad@[i as int]);
            }
            i = i + 1;
            assert(self.peers@ =~= start.remove_keys(bad@.take(i as int).to_set()));
        }
        assert(bad@.take(bad.len() as int) =~= bad@);
        dial_timeouts
    }

    /// The peers that a sweep at `now` removes.
    pub open spec fn expired_peers(&self, now: u64) -> Set<u64> {
        self.peers().dom().filter(|k: u64| expired(self.config(), self.peers()[k], now))
    }

    /// The peers that `sel` picks.
    pub open spec fn selected(&self, sel: Selector) -> Set<u64> {
        self.peers().dom().filter(|k: u64| sel.picks(self.config(), self.peers()[k]))
    }

    /// The peers that `sel` picks, each once.
    fn select(&self, sel: &Selector) -> (r: Vec<u64>)
        ensures
            r@.no_duplicates(),
            r@.to_set() == self.selected(*sel),
    {
        let mut out: Vec<u64> = Vec::new();
        for k in it: self.peers.keys()
            invariant
                out@.no_duplicates(),
                forall|x: u64| #[trigger] out@.contains(x) ==> self.selected(*sel).contains(x),
                forall|x: u64| #[trigger] out@.contains(x) ==> exists|i: int| 0 <= i < it.index() && *it.seq()[i] == x,
                forall|i: int| 0 <= i < it.index() && self.selected(*sel).contains(*it.seq()[i]) ==> out@.contains(*it.seq()[i]),
        {
            let ghost idx = it.index();
            let ghost seen = out@;
            let info = self.peers.get(k).unwrap();
            proof {
                assert(*k == *it.seq()[it.index()]);
                assert(it.seq().no_duplicates());
                assert(self.peers@[*k] == *info);
            }
            if sel.exec_picks(&self.config, info) {
                assert(self.selected(*sel).contains(*k));
                assert(!out@.contains(*k));
                let ghost before = out@;
                out.push(*k);
                proof {
                    assert(out@[out@.len() - 1] == *k);
                    assert(out@.contains(*k));
                    assert forall|x: u64| #[trigger] out@.contains(x) implies before.contains(x) || x == *k by {
                        if x != *k {
                            let j = choose|j: int| 0 <= j < out@.len() && out@[j] == x;
                            assert(before[j] == x);
                        }
                    }
                }
            } else {
                assert(!self.selected(*sel).contains(*k));
            }
            proof {
                assert forall|x: u64| seen.contains(x) implies #[trigger] out@.contains(x) by {
                    if out@.len() > seen.len() {
                        let j = choose|j: int| 0 <= j < seen.len() && seen[j] == x;
                        assert(out@[j] == x);
                    }
                }
                assert forall|i: int| 0 <= i <= idx && self.selected(*sel).contains(#[trigger] *it.seq()[i]) implies out@.contains(*it.seq()[i]) by {
                    if i < idx {
                        assert(seen.contains(*it.seq()[i]));
                    } else {
                        assert(*it.seq()[i] == *k);
                    }
                }
            }
        }
        out
    }
}

/// The position of `s` in the lifecycle.
pub open spec fn state_index(s: PeerState) -> int {
    match s {
        PeerState::Found => 0,
        PeerState::Connecting => 1,
        PeerState::Connected => 2,
        PeerState::Disconnecting => 3,
        PeerState::Disconnected => 4,
    }
}

/// Nanoseconds from `since` to `now`, zero if `now` is earlier.
pub open spec fn elapsed(since: u64, now: u64) -> u64 {
    if now >= since {
        (now - since) as u64
    } else {
        0
    }
}

/// Whether a sweep at `now` evicts a peer described by `info`.
pub open spec fn expired(config: SyncConfig, info: PeerInfo, now: u64) -> bool {
    match info.state {
        PeerState::Found | PeerState::Connected => false,
        PeerState::Connecting => elapsed(info.since, now) >= config.peer_connect_timeout,
        PeerState::Disconnecting => elapsed(info.since, now) >= config.peer_disconnect_timeout,
        PeerState::Disconnected => true,
    }
}

/// Whether a sweep at `now` evicts a peer described by `info` for a dial that took too long.
pub open spec fn dial_timed_out(config: SyncConfig, info: PeerInfo, now: u64) -> bool {
    info.state == PeerState::Connecting && elapsed(info.since, now) >= config.peer_connect_timeout
}

/// A rule that picks peers of the table.
pub enum Selector {
    /// Peers whose state is one of these.
    InStates(Vec<PeerState>),
    /// Peers that a sweep at this time evicts.
    Expired(u64),
    /// Peers that a sweep at this time evicts for a dial timeout.
    DialTimeout(u64),
}

impl Selector {
    pub open spec fn picks(self, config: SyncConfig, info: PeerInfo) -> bool {
        match self {
            Selector::InStates(states) => states@.contains(info.state),
            Selector::Expired(now) => expired(config, info, now),
            Selector::DialTimeout(now) => dial_timed_out(config, info, now),
        }
    }

    fn exec_picks(&self, config: &SyncConfig, info: &PeerInfo) -> (r: bool)
        ensures
            r == self.picks(*config, *info),
    {
        match self {
            Selector::InStates(states) => slice_contains(states.as_slice(), info.state),
            Selector::Expired(now) => {
                let waited = now.saturating_sub(info.since);
                match info.state {
                    PeerState::Found | PeerState::Connected => false,
                    PeerState::Connecting => waited >= config.peer_connect_timeout,
                    PeerState::Disconnecting => waited >= config.peer_disconnect_timeout,
                    PeerState::Disconnected => true,
                }
            },
            Selector::DialTimeout(now) => {
                info.state == PeerState::Connecting && now.saturating_sub(info.since) >= config.peer_connect_timeout
            },
        }
    }
}

/// Relies on rand's `IteratorRandom::choose` over `0..n` with the thread-local generator:
/// None exactly when `n` is zero, else an index below `n`.
#[verifier::external_body]
fn pick_index(n: usize) -> (r: Option<usize>)
    ensures
        r is None <==> n == 0,
        r matches Some(i) ==> i < n,
{
    (0..n).choose(&mut rand::thread_rng())
}

/// Whether `s` is one of `states`.
fn slice_contains(states: &[PeerState], s: PeerState) -> (r: bool)
    ensures
        r == states@.contains(s),
{
    let mut i: usize = 0;
    while i < states.len()
        invariant
            i <= states.len(),
            forall|j: int| 0 <= j < i ==> states@[j] != s,
        decreases states.len() - i,
    {
        if states[i] == s {
            return true;
        }
        i = i + 1;
    }
    false
}

impl Default for SyncPeers {
    /// An empty table with the default deadlines.
    fn default() -> (r: Self)
        ensures
            r.config().peer_connect_timeout == 15_000_000_000,
            r.config().peer_disconnect_timeout == 15_000_000_000,
            r.peers() == Map::<u64, PeerInfo>::empty(),
    {
        SyncPeers::new(SyncConfig::default())
    }
}

/// Adding a peer that is new (or known with another shard config) answers true; adding it
/// again with the same shard config then answers false, changes nothing, and leaves the
/// peer in Found.
pub proof fn lemma_add_same_peer_twice(
    first: SyncPeers,
    second: SyncPeers,
    peer_id: u64,
    addr: String,
    shard_config: ShardConfig,
    now: u64,
)
    requires
        !(first.peers().contains_key(peer_id) && first.peers()[peer_id].shard_config == shard_config),
        second.peers() == first.peers().insert(
            peer_id,
            (PeerInfo { addr, state: PeerState::Found, shard_config, since: now }),
        ),
    ensures
        second.peers().contains_key(peer_id) && second.peers()[peer_id].shard_config == shard_config,
        second.peers()[peer_id].state == PeerState::Found,
{
}

/// A sweep removes a peer that has been Connecting for at least the connect deadline, and
/// lists it once among the dial timeouts to report.
pub proof fn lemma_stuck_dial_evicted(table: SyncPeers, peer_id: u64, now: u64)
    requires
        table.peers().contains_key(peer_id),
        table.peers()[peer_id].state == PeerState::Connecting,
        elapsed(table.peers()[peer_id].since, now) >= table.config().peer_connect_timeout,
    ensures
        !table.peers().remove_keys(table.expired_peers(now)).contains_key(peer_id),
        table.peers().dom().filter(|k: u64| dial_timed_out(table.config(), table.peers()[k], now)).contains(peer_id),
{
    assert(table.expired_peers(now).contains(peer_id));
}

/// A sweep removes every Disconnected peer, whenever its state last changed.
pub proof fn lemma_disconnected_evicted(table: SyncPeers, peer_id: u64, now: u64)
    requires
        table.peers().contains_key(peer_id),
        table.peers()[peer_id].state == PeerState::Disconnected,
    ensures
        !table.peers().remove_keys(table.expired_peers(now)).contains_key(peer_id),
{
    assert(table.expired_peers(now).contains(peer_id));
}

} // verus!
