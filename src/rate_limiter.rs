use vstd::prelude::*;
use fnv::FnvHashMap;

verus! {

/// fnv's hasher, carried opaquely inside the arrival-time table.
#[verifier::external_type_specification]
#[verifier::external_body]
pub struct ExFnvHasher(fnv::FnvHasher);

/// std's hasher builder, carried opaquely inside the arrival-time table.
#[verifier::external_type_specification]
#[verifier::external_body]
#[verifier::reject_recursive_types(H)]
pub struct ExBuildHasherDefault<H>(std::hash::BuildHasherDefault<H>);

/// Nanoseconds since the limiter's epoch.
pub type Nanosecs = u64;

/// Theoretical arrival time per peer key.
pub type TatTable = FnvHashMap<u64, u64>;

/// The contents of a table of theoretical arrival times, keyed by peer.
pub uninterp spec fn tat_table(m: TatTable) -> Map<u64, u64>;

/// Relies on `FnvHashMap::default` (std `HashMap::default` with fnv's hasher):
/// a new map is empty.
#[verifier::external_body]
fn table_new() -> (r: TatTable)
    ensures
        tat_table(r) =~= Map::empty(),
{
    FnvHashMap::default()
}

/// Relies on `HashMap::get` (fnv's hasher): the value stored under `k`, if any.
#[verifier::external_body]
fn table_get(m: &TatTable, k: u64) -> (r: Option<u64>)
    ensures
        r == (if tat_table(*m).contains_key(k) { Some(tat_table(*m)[k]) } else { None }),
{
    m.get(&k).copied()
}

/// Relies on `HashMap::insert` (fnv's hasher): `k` now maps to `v`, other keys keep theirs.
#[verifier::external_body]
fn table_insert(m: &mut TatTable, k: u64, v: u64)
    ensures
        tat_table(*final(m)) == tat_table(*old(m)).insert(k, v),
{
    m.insert(k, v);
}

/// Relies on `HashMap::retain` (fnv's hasher): keeps exactly the entries whose
/// arrival time is at or after `lim`.
#[verifier::external_body]
fn table_retain_from(m: &mut TatTable, lim: u64)
    ensures
        tat_table(*final(m)) == pruned(tat_table(*old(m)), lim),
{
    m.retain(|_k, tat| refills_at_or_after(*tat, lim));
}

/// Whether a bucket whose arrival time is `tat` is still refilling at `lim`.
fn refills_at_or_after(tat: u64, lim: u64) -> (r: bool)
    ensures
        r == (tat >= lim),
{
    tat >= lim
}

/// The entries of `tats` whose arrival time is not before `lim`.
pub open spec fn pruned(tats: Map<u64, u64>, lim: u64) -> Map<u64, u64> {
    Map::new(|k: u64| tats.contains_key(k) && tats[k] >= lim, |k: u64| tats[k])
}

pub const MAX_TOKENS_ZERO: &'static str = "Max number of tokens should be positive";

pub const PERIOD_ZERO: &'static str = "Replenish time must be positive";

pub const PERIOD_TOO_LONG: &'static str = "total replenish time is too long";

pub const TOKEN_TIME_ZERO: &'static str = "replenish time per token must be at least one nanosecond";

/// User-friendly rate limiting parameters of the GCRA.
///
/// A quota of `max_tokens` tokens every `replenish_all_every` nanoseconds means that one token
/// is replenished every `replenish_all_every / max_tokens` nanoseconds, and that instantaneous
/// batches of up to `max_tokens` tokens are allowed. Set `max_tokens` to 1 for a hard limit.
#[derive(Clone, Copy, Debug)]
pub struct Quota {
    /// How often `max_tokens` are fully replenished, in nanoseconds.
    replenish_all_every: u128,
    /// How large an instantaneous batch of tokens can be.
    max_tokens: u64,
}

impl Quota {
    pub closed spec fn period(&self) -> u128 {
        self.replenish_all_every
    }

    pub closed spec fn max_tokens(&self) -> u64 {
        self.max_tokens
    }

    /// The construction error of a bucket made from this quota, if any.
    pub open spec fn error(&self) -> Option<&'static str> {
        if self.max_tokens() == 0 {
            Some(MAX_TOKENS_ZERO)
        } else if self.period() == 0 {
            Some(PERIOD_ZERO)
        } else if self.period() > u64::MAX {
            Some(PERIOD_TOO_LONG)
        } else if self.period() / (self.max_tokens() as u128) == 0 {
            Some(TOKEN_TIME_ZERO)
        } else {
            None
        }
    }

    /// One token every `period` nanoseconds: a hard limit.
    pub fn one_every(period: u128) -> (r: Self)
        ensures
            r.period() == period,
            r.max_tokens() == 1,
    {
        Self { replenish_all_every: period, max_tokens: 1 }
    }

    /// Up to `n` tokens every `period` nanoseconds.
    pub fn n_every(n: u64, period: u128) -> (r: Self)
        ensures
            r.period() == period,
            r.max_tokens() == n,
    {
        Self { replenish_all_every: period, max_tokens: n }
    }
}

/// Why a request was not admitted.
#[derive(Clone, Copy, Debug, PartialEq, Eq, Structural)]
pub enum RateLimitedErr {
    /// The tokens asked for exceed what a full bucket holds: no wait helps.
    TooLarge,
    /// The request does not fit yet; it would fit after this many nanoseconds.
    TooSoon(u64),
}

pub open spec fn sat_add(a: u64, b: u64) -> u64 {
    if a + b > u64::MAX {
        u64::MAX
    } else {
        (a + b) as u64
    }
}

pub open spec fn sat_sub(a: u64, b: u64) -> u64 {
    if a >= b {
        (a - b) as u64
    } else {
        0
    }
}

pub open spec fn max_u64(a: u64, b: u64) -> u64 {
    if a >= b {
        a
    } else {
        b
    }
}

/// The arrival time of `key`; an unseen key counts as having a full bucket at `now`.
pub open spec fn tat_or_now(tats: Map<u64, u64>, key: u64, now: u64) -> u64 {
    if tats.contains_key(key) {
        tats[key]
    } else {
        now
    }
}

/// The earliest instant at which `tokens` tokens fit in the bucket of `key`.
pub open spec fn earliest(tau: u64, t: u64, tats: Map<u64, u64>, key: u64, now: u64, tokens: u64) -> u64 {
    sat_sub(sat_add(tat_or_now(tats, key, now), (t * tokens) as u64), tau)
}

/// The GCRA decision on a request of `tokens` tokens by `key` at `now`.
pub open spec fn verdict(tau: u64, t: u64, tats: Map<u64, u64>, now: u64, key: u64, tokens: u64) -> Result<(), RateLimitedErr> {
    if t * tokens > tau {
        Err(RateLimitedErr::TooLarge)
    } else if now < earliest(tau, t, tats, key, now, tokens) {
        Err(RateLimitedErr::TooSoon((earliest(tau, t, tats, key, now, tokens) - now) as u64))
    } else {
        Ok(())
    }
}

/// The arrival times after that decision: an admitted request pushes the arrival time of
/// `key` to `max(now, tat) + cost`; a refused one changes nothing.
pub open spec fn next_tats(tau: u64, t: u64, tats: Map<u64, u64>, now: u64, key: u64, tokens: u64) -> Map<u64, u64> {
    if verdict(tau, t, tats, now, key, tokens) is Ok {
        tats.insert(key, sat_add(max_u64(now, tat_or_now(tats, key, now)), (t * tokens) as u64))
    } else {
        tats
    }
}

/// Per-key rate limiter: the token bucket / leaky bucket as a meter, in its GCRA form.
pub struct Limiter {
    /// After how long a bucket is full again, replenishing one token every `t`.
    tau: Nanosecs,
    /// How often one token is replenished.
    t: Nanosecs,
    /// When each key's bucket will be full again (its theoretical arrival time).
    tat_per_key: TatTable,
}

impl Limiter {
    pub closed spec fn tau(&self) -> u64 {
        self.tau
    }

    pub closed spec fn t(&self) -> u64 {
        self.t
    }

    pub closed spec fn tats(&self) -> Map<u64, u64> {
        tat_table(self.tat_per_key)
    }

    pub open spec fn wf(&self) -> bool {
        1 <= self.t() <= self.tau()
    }

    /// A fresh bucket set made from `q`: no key seen yet.
    pub open spec fn made_from(&self, q: Quota) -> bool {
        &&& self.wf()
        &&& self.tau() == q.period()
        &&& self.t() == q.period() / (q.max_tokens() as u128)
        &&& self.tats() == Map::<u64, u64>::empty()
    }

    pub open spec fn verdict(&self, now: u64, key: u64, tokens: u64) -> Result<(), RateLimitedErr> {
        verdict(self.tau(), self.t(), self.tats(), now, key, tokens)
    }

    pub open spec fn next_tats(&self, now: u64, key: u64, tokens: u64) -> Map<u64, u64> {
        next_tats(self.tau(), self.t(), self.tats(), now, key, tokens)
    }

    pub fn from_quota(quota: Quota) -> (r: Result<Self, &'static str>)
        ensures
            match quota.error() {
                Some(e) => r is Err && r->Err_0 == e,
                None => r is Ok && r->Ok_0.made_from(quota),
            },
    {
        if quota.max_tokens == 0 {
            return Err(MAX_TOKENS_ZERO);
        }
        let tau = quota.replenish_all_every;
        if tau == 0 {
            return Err(PERIOD_ZERO);
        }
        if tau > u64::MAX as u128 {
            return Err(PERIOD_TOO_LONG);
        }
        let t = tau / (quota.max_tokens as u128);
        if t == 0 {
            return Err(TOKEN_TIME_ZERO);
        }
        assert(t <= tau) by (nonlinear_arith)
            requires
                t == tau / (quota.max_tokens as u128),
                quota.max_tokens >= 1,
        ;
        Ok(Limiter { tau: tau as u64, t: t as u64, tat_per_key: table_new() })
    }

    /// Decides whether `key` may spend `tokens` tokens at `now` (nanoseconds since the
    /// limiter's epoch), and records the spending when it may.
    pub fn allows(&mut self, now: Nanosecs, key: &u64, tokens: u64) -> (r: Result<(), RateLimitedErr>)
        requires
            old(self).wf(),
        ensures
            final(self).wf(),
            final(self).tau() == old(self).tau(),
            final(self).t() == old(self).t(),
            r == old(self).verdict(now, *key, tokens),
            final(self).tats() == old(self).next_tats(now, *key, tokens),
    {
        let tau = self.tau;
        let t = self.t;
        // how long it takes to replenish these tokens
        let additional_time = match t.checked_mul(tokens) {
            Some(c) => c,
            None => return Err(RateLimitedErr::TooLarge),
        };
        if additional_time > tau {
            // more than a full bucket: this batch can never be processed
            return Err(RateLimitedErr::TooLarge);
        }
        // an unseen key has a full bucket
        let tat = match table_get(&self.tat_per_key, *key) {
            Some(v) => v,
            None => now,
        };
        let earliest_time = tat.saturating_add(additional_time).saturating_sub(tau);
        if now < earliest_time {
            Err(RateLimitedErr::TooSoon(earliest_time - now))
        } else {
            let start = if now >= tat { now } else { tat };
            table_insert(&mut self.tat_per_key, *key, start.saturating_add(additional_time));
            Ok(())
        }
    }

    /// Forgets the keys whose bucket is full by `time_limit`.
    pub fn prune(&mut self, time_limit: Nanosecs)
        requires
            old(self).wf(),
        ensures
            final(self).wf(),
            final(self).tau() == old(self).tau(),
            final(self).t() == old(self).t(),
            final(self).tats() == pruned(old(self).tats(), time_limit),
    {
        table_retain_from(&mut self.tat_per_key, time_limit);
    }
}

/// The RPC protocols, each policed by a bucket set of its own.
#[derive(Clone, Copy, Debug, PartialEq, Eq, Structural)]
pub enum Protocol {
    Ping,
    Status,
    Goodbye,
    DataByHash,
    AnswerFile,
    GetChunks,
}

pub const PING_MISSING: &'static str = "Ping quota not specified";

pub const STATUS_MISSING: &'static str = "Status quota not specified";

pub const GOODBYE_MISSING: &'static str = "Goodbye quota not specified";

pub const DATA_BY_HASH_MISSING: &'static str = "DataByHash quota not specified";

pub const ANSWER_FILE_MISSING: &'static str = "AnswerFile quota not specified";

pub const GET_CHUNKS_MISSING: &'static str = "GetChunks quota not specified";

/// User-friendly builder of an `RPCRateLimiter`.
pub struct RPCRateLimiterBuilder {
    goodbye_quota: Option<Quota>,
    ping_quota: Option<Quota>,
    status_quota: Option<Quota>,
    data_by_hash_quota: Option<Quota>,
    answer_file_quota: Option<Quota>,
    get_chunks_quota: Option<Quota>,
}

impl Default for RPCRateLimiterBuilder {
    fn default() -> (r: Self)
        ensures
            forall|p: Protocol| r.quota(p) is None,
    {
        RPCRateLimiterBuilder {
            goodbye_quota: None,
            ping_quota: None,
            status_quota: None,
            data_by_hash_quota: None,
            answer_file_quota: None,
            get_chunks_quota: None,
        }
    }
}

impl RPCRateLimiterBuilder {
    /// The quota set for `p`, if any.
    pub closed spec fn quota(&self, p: Protocol) -> Option<Quota> {
        match p {
            Protocol::Ping => self.ping_quota,
            Protocol::Status => self.status_quota,
            Protocol::Goodbye => self.goodbye_quota,
            Protocol::DataByHash => self.data_by_hash_quota,
            Protocol::AnswerFile => self.answer_file_quota,
            Protocol::GetChunks => self.get_chunks_quota,
        }
    }

    /// The error of `build`, if any: first a missing quota, then an invalid one, each
    /// protocol taken in the order Ping, Status, Goodbye, DataByHash, AnswerFile, GetChunks.
    pub open spec fn build_error(&self) -> Option<&'static str> {
        if self.quota(Protocol::Ping) is None {
            Some(PING_MISSING)
        } else if self.quota(Protocol::Status) is None {
            Some(STATUS_MISSING)
        } else if self.quota(Protocol::Goodbye) is None {
            Some(GOODBYE_MISSING)
        } else if self.quota(Protocol::DataByHash) is None {
            Some(DATA_BY_HASH_MISSING)
        } else if self.quota(Protocol::AnswerFile) is None {
            Some(ANSWER_FILE_MISSING)
        } else if self.quota(Protocol::GetChunks) is None {
            Some(GET_CHUNKS_MISSING)
        } else if self.quota(Protocol::Ping)->0.error() is Some {
            self.quota(Protocol::Ping)->0.error()
        } else if self.quota(Protocol::Status)->0.error() is Some {
            self.quota(Protocol::Status)->0.error()
        } else if self.quota(Protocol::Goodbye)->0.error() is Some {
            self.quota(Protocol::Goodbye)->0.error()
        } else if self.quota(Protocol::DataByHash)->0.error() is Some {
            self.quota(Protocol::DataByHash)->0.error()
        } else if self.quota(Protocol::AnswerFile)->0.error() is Some {
            self.quota(Protocol::AnswerFile)->0.error()
        } else {
            self.quota(Protocol::GetChunks)->0.error()
        }
    }

    /// An empty builder.
    pub fn new() -> (r: Self)
        ensures
            forall|p: Protocol| r.quota(p) is None,
    {
        Self::default()
    }

    /// Sets the quota of `protocol`.
    pub fn set_quota(self, protocol: Protocol, quota: Quota) -> (r: Self)
        ensures
            r.quota(protocol) == Some(quota),
            forall|p: Protocol| p != protocol ==> r.quota(p) == self.quota(p),
    {
        let mut b = self;
        let q = Some(quota);
        match protocol {
            Protocol::Ping => b.ping_quota = q,
            Protocol::Status => b.status_quota = q,
            Protocol::Goodbye => b.goodbye_quota = q,
            Protocol::DataByHash => b.data_by_hash_quota = q,
            Protocol::AnswerFile => b.answer_file_quota = q,
            Protocol::GetChunks => b.get_chunks_quota = q,
        }
        b
    }

    /// Allows one token every `time_period` nanoseconds for `protocol`: a hard limit.
    pub fn one_every(self, protocol: Protocol, time_period: u128) -> (r: Self)
        ensures
            r.quota(protocol) is Some,
            r.quota(protocol)->0.period() == time_period,
            r.quota(protocol)->0.max_tokens() == 1,
            forall|p: Protocol| p != protocol ==> r.quota(p) == self.quota(p),
    {
        self.set_quota(protocol, Quota::one_every(time_period))
    }

    /// Allows `n` tokens every `time_period` nanoseconds for `protocol`.
    pub fn n_every(self, protocol: Protocol, n: u64, time_period: u128) -> (r: Self)
        ensures
            r.quota(protocol) is Some,
            r.quota(protocol)->0.period() == time_period,
            r.quota(protocol)->0.max_tokens() == n,
            forall|p: Protocol| p != protocol ==> r.quota(p) == self.quota(p),
    {
        self.set_quota(protocol, Quota::n_every(n, time_period))
    }

    /// Makes one bucket set per protocol; fails when a quota is missing or invalid.
    pub fn build(self) -> (r: Result<RPCRateLimiter, &'static str>)
        ensures
            match self.build_error() {
                Some(e) => r is Err && r->Err_0 == e,
                None => r is Ok && r->Ok_0.wf() && forall|p: Protocol| #[trigger]
                    r->Ok_0.limiter(p).made_from(self.quota(p)->0),
            },
    {
        let ping_quota = match self.ping_quota {
            Some(q) => q,
            None => return Err(PING_MISSING),
        };
        let status_quota = match self.status_quota {
            Some(q) => q,
            None => return Err(STATUS_MISSING),
        };
        let goodbye_quota = match self.goodbye_quota {
            Some(q) => q,
            None => return Err(GOODBYE_MISSING),
        };
        let data_by_hash_quota = match self.data_by_hash_quota {
            Some(q) => q,
            None => return Err(DATA_BY_HASH_MISSING),
        };
        let answer_file_quota = match self.answer_file_quota {
            Some(q) => q,
            None => return Err(ANSWER_FILE_MISSING),
        };
        let get_chunks_quota = match self.get_chunks_quota {
            Some(q) => q,
            None => return Err(GET_CHUNKS_MISSING),
        };
        let ping_rl = Limiter::from_quota(ping_quota)?;
        let status_rl = Limiter::from_quota(status_quota)?;
        let goodbye_rl = Limiter::from_quota(goodbye_quota)?;
        let data_by_hash_rl = Limiter::from_quota(data_by_hash_quota)?;
        let answer_file_rl = Limiter::from_quota(answer_file_quota)?;
        let get_chunks_rl = Limiter::from_quota(get_chunks_quota)?;
        Ok(RPCRateLimiter {
            goodbye_rl,
            ping_rl,
            status_rl,
            data_by_hash_rl,
            answer_file_rl,
            get_chunks_rl,
        })
    }
}

/// Rate limiting of requests per peer, with a separate rate for each protocol.
///
/// Times are nanoseconds since the limiter's epoch, which the caller keeps.
pub struct RPCRateLimiter {
    goodbye_rl: Limiter,
    ping_rl: Limiter,
    status_rl: Limiter,
    data_by_hash_rl: Limiter,
    answer_file_rl: Limiter,
    get_chunks_rl: Limiter,
}

impl RPCRateLimiter {
    /// The bucket set of protocol `p`.
    pub closed spec fn limiter(&self, p: Protocol) -> Limiter {
        match p {
            Protocol::Ping => self.ping_rl,
            Protocol::Status => self.status_rl,
            Protocol::Goodbye => self.goodbye_rl,
            Protocol::DataByHash => self.data_by_hash_rl,
            Protocol::AnswerFile => self.answer_file_rl,
            Protocol::GetChunks => self.get_chunks_rl,
        }
    }

    pub open spec fn wf(&self) -> bool {
        &&& self.limiter(Protocol::Ping).wf()
        &&& self.limiter(Protocol::Status).wf()
        &&& self.limiter(Protocol::Goodbye).wf()
        &&& self.limiter(Protocol::DataByHash).wf()
        &&& self.limiter(Protocol::AnswerFile).wf()
        &&& self.limiter(Protocol::GetChunks).wf()
    }

    /// Decides on a request of `protocol` by `peer_id` at `now` that announces
    /// `expected_responses` responses; each response costs one token, and a request
    /// costs at least one.
    pub fn allows(
        &mut self,
        now: Nanosecs,
        peer_id: &u64,
        protocol: Protocol,
        expected_responses: u64,
    ) -> (r: Result<(), RateLimitedErr>)
        requires
            old(self).wf(),
        ensures
            final(self).wf(),
            r == old(self).limiter(protocol).verdict(now, *peer_id, request_tokens(expected_responses)),
            final(self).limiter(protocol).tau() == old(self).limiter(protocol).tau(),
            final(self).limiter(protocol).t() == old(self).limiter(protocol).t(),
            final(self).limiter(protocol).tats() == old(self).limiter(protocol).next_tats(
                now,
                *peer_id,
                request_tokens(expected_responses),
            ),
            forall|p: Protocol| p != protocol ==> #[trigger] final(self).limiter(p) == old(self).limiter(p),
    {
        let tokens = if expected_responses >= 1 { expected_responses } else { 1 };
        match protocol {
            Protocol::Ping => self.ping_rl.allows(now, peer_id, tokens),
            Protocol::Status => self.status_rl.allows(now, peer_id, tokens),
            Protocol::Goodbye => self.goodbye_rl.allows(now, peer_id, tokens),
            Protocol::DataByHash => self.data_by_hash_rl.allows(now, peer_id, tokens),
            Protocol::AnswerFile => self.answer_file_rl.allows(now, peer_id, tokens),
            Protocol::GetChunks => self.get_chunks_rl.allows(now, peer_id, tokens),
        }
    }

    /// Forgets, in every protocol's bucket set, the peers whose bucket is full by `now`.
    pub fn prune(&mut self, now: Nanosecs)
        requires
            old(self).wf(),
        ensures
            final(self).wf(),
            forall|p: Protocol| #[trigger] final(self).limiter(p).tats() == pruned(old(self).limiter(p).tats(), now),
            forall|p: Protocol| #[trigger] final(self).limiter(p).tau() == old(self).limiter(p).tau(),
            forall|p: Protocol| #[trigger] final(self).limiter(p).t() == old(self).limiter(p).t(),
    {
        self.ping_rl.prune(now);
        self.status_rl.prune(now);
        self.goodbye_rl.prune(now);
        self.data_by_hash_rl.prune(now);
        self.answer_file_rl.prune(now);
        self.get_chunks_rl.prune(now);
    }
}

/// The tokens a request costs: its expected responses, at least one.
pub open spec fn request_tokens(expected_responses: u64) -> u64 {
    if expected_responses >= 1 {
        expected_responses
    } else {
        1
    }
}

/// How far ahead of `now` the arrival time of `key` lies: the part of a full bucket
/// that `key` has already spent.
pub open spec fn debt(tats: Map<u64, u64>, key: u64, now: u64) -> int {
    max_u64(now, tat_or_now(tats, key, now)) - now
}

/// A request of one token more than the quota's `max_tokens` is refused as too large,
/// whatever the arrival times, provided `t = period / max_tokens` does not lose so much
/// to rounding that the extra token still fits.
pub proof fn lemma_one_more_than_max_is_too_large(q: Quota, l: Limiter, now: u64, key: u64)
    requires
        q.error() is None,
        q.max_tokens() < u64::MAX,
        l.tau() == q.period(),
        l.t() == q.period() / (q.max_tokens() as u128),
        q.period() % (q.max_tokens() as u128) < q.period() / (q.max_tokens() as u128),
    ensures
        l.verdict(now, key, (q.max_tokens() + 1) as u64) == Err::<(), RateLimitedErr>(RateLimitedErr::TooLarge),
{
    let tau = q.period() as int;
    let n = q.max_tokens() as int;
    let t = l.t() as int;
    assert(t == tau / n);
    assert(tau == n * (tau / n) + tau % n) by {
        vstd::arithmetic::div_mod::lemma_fundamental_div_mod(tau, n);
    }
    assert(n * t == t * n) by (nonlinear_arith);
    assert(t * (n + 1) == t * n + t) by (nonlinear_arith);
}

/// An admitted request adds exactly its cost to the time that its key has spent, and
/// what has been spent never exceeds a full bucket. Idle time thus only pays debt back
/// down to zero: a burst at one instant never spends more than `tau`, however long the
/// key was silent before.
pub proof fn lemma_no_credit_accumulates(l: Limiter, now: u64, key: u64, tokens: u64)
    requires
        l.wf(),
        l.verdict(now, key, tokens) is Ok,
        tat_or_now(l.tats(), key, now) + l.t() * tokens <= u64::MAX,
        now + l.t() * tokens <= u64::MAX,
    ensures
        debt(l.next_tats(now, key, tokens), key, now) == debt(l.tats(), key, now) + l.t() * tokens,
        debt(l.next_tats(now, key, tokens), key, now) <= l.tau(),
{
}

/// A decision on one key neither depends on nor changes the arrival time of another.
pub proof fn lemma_keys_independent(
    tau: u64,
    t: u64,
    tats: Map<u64, u64>,
    now: u64,
    key: u64,
    tokens: u64,
    other: u64,
    later: u64,
    other_tokens: u64,
)
    requires
        other != key,
    ensures
        next_tats(tau, t, tats, now, key, tokens).contains_key(other) == tats.contains_key(other),
        next_tats(tau, t, tats, now, key, tokens)[other] == tats[other],
        verdict(tau, t, next_tats(tau, t, tats, now, key, tokens), later, other, other_tokens)
            == verdict(tau, t, tats, later, other, other_tokens),
        next_tats(tau, t, next_tats(tau, t, tats, now, key, tokens), later, other, other_tokens)[other]
            == next_tats(tau, t, tats, later, other, other_tokens)[other],
{
    let after = next_tats(tau, t, tats, now, key, tokens);
    assert(tat_or_now(after, other, later) == tat_or_now(tats, other, later));
}

/// For a key whose bucket had refilled when the table was pruned (`TAT < now`), pruning
/// changes neither the decision on any later request of that key nor the key's resulting
/// arrival time: a pruned key is indistinguishable from an unseen one.
pub proof fn lemma_prune_equivalence(
    tau: u64,
    t: u64,
    tats: Map<u64, u64>,
    now: u64,
    key: u64,
    later: u64,
    tokens: u64,
)
    requires
        1 <= t <= tau,
        tats.contains_key(key),
        tats[key] < now,
        now <= later,
    ensures
        verdict(tau, t, pruned(tats, now), later, key, tokens) == verdict(tau, t, tats, later, key, tokens),
        verdict(tau, t, tats, later, key, tokens) is Ok ==> {
            &&& next_tats(tau, t, pruned(tats, now), later, key, tokens).contains_key(key)
            &&& next_tats(tau, t, tats, later, key, tokens).contains_key(key)
            &&& next_tats(tau, t, pruned(tats, now), later, key, tokens)[key]
                == next_tats(tau, t, tats, later, key, tokens)[key]
        },
{
    assert(!pruned(tats, now).contains_key(key));
}

/// Whether every request of the burst `toks`, made one after another by `key` at the same
/// instant `now`, is admitted.
pub open spec fn burst_admitted(tau: u64, t: u64, tats: Map<u64, u64>, now: u64, key: u64, toks: Seq<u64>) -> bool
    decreases toks.len(),
{
    if toks.len() == 0 {
        true
    } else {
        &&& verdict(tau, t, tats, now, key, toks[0]) is Ok
        &&& burst_admitted(tau, t, next_tats(tau, t, tats, now, key, toks[0]), now, key, toks.drop_first())
    }
}

/// The tokens of a burst, all together.
pub open spec fn total_tokens(toks: Seq<u64>) -> int
    decreases toks.len(),
{
    if toks.len() == 0 {
        0
    } else {
        toks[0] + total_tokens(toks.drop_first())
    }
}

/// What a burst at one instant spends, added to what the key had already spent, never
/// exceeds a full bucket.
pub proof fn lemma_burst_within_bucket(tau: u64, t: u64, tats: Map<u64, u64>, now: u64, key: u64, toks: Seq<u64>)
    requires
        1 <= t <= tau,
        now + 2 * tau <= u64::MAX,
        toks.len() > 0,
        burst_admitted(tau, t, tats, now, key, toks),
    ensures
        debt(tats, key, now) + t * total_tokens(toks) <= tau,
    decreases toks.len(),
{
    let rest = toks.drop_first();
    let cost = t * toks[0];
    let after = next_tats(tau, t, tats, now, key, toks[0]);
    assert(cost <= tau);
    assert(debt(tats, key, now) + cost <= tau);
    assert(debt(after, key, now) == debt(tats, key, now) + cost);
    assert(t * total_tokens(toks) == cost + t * total_tokens(rest)) by (nonlinear_arith)
        requires
            total_tokens(toks) == toks[0] + total_tokens(rest),
            cost == t * toks[0],
    ;
    if rest.len() > 0 {
        lemma_burst_within_bucket(tau, t, after, now, key, rest);
    } else {
        assert(total_tokens(rest) == 0);
    }
}

/// However long a key has been silent, a burst of requests at one instant is admitted for
/// at most `max_tokens` tokens in all, provided `t = period / max_tokens` does not lose a
/// whole token time to rounding (`period % max_tokens < t`).
pub proof fn lemma_burst_at_most_max_tokens(q: Quota, l: Limiter, now: u64, key: u64, toks: Seq<u64>)
    requires
        q.error() is None,
        l.tau() == q.period(),
        l.t() == q.period() / (q.max_tokens() as u128),
        q.period() % (q.max_tokens() as u128) < q.period() / (q.max_tokens() as u128),
        now + 2 * l.tau() <= u64::MAX,
        burst_admitted(l.tau(), l.t(), l.tats(), now, key, toks),
    ensures
        total_tokens(toks) <= q.max_tokens(),
{
    let n = q.max_tokens() as int;
    let tau = q.period() as int;
    let t = l.t() as int;
    if toks.len() > 0 {
        lemma_burst_within_bucket(l.tau(), l.t(), l.tats(), now, key, toks);
        assert(t == tau / n);
        assert(tau == n * (tau / n) + tau % n) by {
            vstd::arithmetic::div_mod::lemma_fundamental_div_mod(tau, n);
        }
        assert(debt(l.tats(), key, now) >= 0);
        assert(n * t == t * n) by (nonlinear_arith);
        assert(t * total_tokens(toks) < t * (n + 1)) by (nonlinear_arith)
            requires
                t * total_tokens(toks) <= tau,
                tau == t * n + tau % n,
                tau % n < t,
        ;
        assert(total_tokens(toks) <= n) by (nonlinear_arith)
            requires
                t * total_tokens(toks) < t * (n + 1),
                t >= 1,
        ;
    }
}

} // verus!
