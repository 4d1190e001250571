//! How often a client may ask: a limiter for requests and one for transactions, for each address
//! and each key.

use crate::config::{ApiKeyEntry, Config, RateLimitConfig, WhitelistEntry};
use crate::middleware::limiter;
use crate::middleware::limiter::Limiter;
use crate::net;
use crate::net::{IpAddr, IpKey};
use vstd::prelude::*;

verus! {

/// The limiters of one client.
pub struct IpLimiters {
    pub rps: Limiter,
    pub tps: Limiter,
}

/// The rates and bursts of one client.
#[derive(Debug, Clone, Copy)]
pub struct Limits {
    pub rps: (u32, u32),
    pub tps: (u32, u32),
}

/// The limiters that a map holds by address.
pub uninterp spec fn ip_held(m: dashmap::DashMap<IpKey, IpLimiters>) -> Map<IpKey, IpLimiters>;

/// The limiters that a map holds by key.
pub uninterp spec fn key_held(m: dashmap::DashMap<String, IpLimiters>) -> Map<Seq<char>, IpLimiters>;

/// The limits of limiters that are held.
pub open spec fn limits_in<K>(held: Map<K, IpLimiters>) -> Map<K, Limits> {
    held.map_values(|l: IpLimiters| l.limits())
}

/// None of the limiters that are held has been asked yet.
pub open spec fn none_asked<K>(held: Map<K, IpLimiters>) -> bool {
    forall|k: K| #[trigger] held.contains_key(k) ==> held[k].unasked()
}

/// Limiters that are put in bring their limits.
proof fn lemma_limits_of_inserted<K>(held: Map<K, IpLimiters>, key: K, l: IpLimiters)
    ensures
        limits_in(held.insert(key, l)) == limits_in(held).insert(key, l.limits()),
{
    assert(limits_in(held.insert(key, l)) =~= limits_in(held).insert(key, l.limits()));
}

impl IpLimiters {
    /// The limits that both limiters were made with.
    pub open spec fn limits(self) -> Limits {
        Limits { rps: limiter::quota_of(self.rps), tps: limiter::quota_of(self.tps) }
    }

    /// Neither limiter has been asked yet.
    pub open spec fn unasked(self) -> bool {
        limiter::asked(self.rps).len() == 0 && limiter::asked(self.tps).len() == 0
    }

    /// The limiter for transactions is asked of a request: it sends transactions, and the limiter for
    /// requests, which has just been asked, let it pass.
    pub open spec fn asks_tps(self, is_send_tx: bool) -> bool {
        is_send_tx && limiter::last_passed(self.rps)
    }

    /// These are the limiters `before`, asked whether a request may pass, and `r` is what they
    /// answered: the one for requests was asked once, and the one for transactions once or not at all.
    pub open spec fn answered(
        self,
        before: IpLimiters,
        is_send_tx: bool,
        r: Result<(), bool>,
    ) -> bool {
        &&& limiter::once_more(before.rps, self.rps)
        &&& if self.asks_tps(is_send_tx) {
            limiter::once_more(before.tps, self.tps)
        } else {
            self.tps == before.tps
        }
        &&& r == verdict_on(
            limiter::last_passed(self.rps),
            if self.asks_tps(is_send_tx) {
                Some(limiter::last_passed(self.tps))
            } else {
                None
            },
        )
    }
}

/// `DashMap::new`: an empty map.
#[verifier::external_body]
fn new_ip_map() -> (m: dashmap::DashMap<IpKey, IpLimiters>)
    ensures
        (ip_held(m) == Map::<IpKey, IpLimiters>::empty()),
{
    dashmap::DashMap::new()
}

/// `DashMap::insert`: the value stands under the key, in place of any before it.
#[verifier::external_body]
fn put_ip(m: &mut dashmap::DashMap<IpKey, IpLimiters>, key: IpKey, value: IpLimiters)
    ensures
        ip_held(*final(m)) == ip_held(*old(m)).insert(key, value),
{
    m.insert(key, value);
}

/// `DashMap::remove`: the value under the key, where there is one, leaves the map and is handed back.
#[verifier::external_body]
fn take_ip(m: &mut dashmap::DashMap<IpKey, IpLimiters>, key: IpKey) -> (r: Option<IpLimiters>)
    ensures
        ip_held(*final(m)) == ip_held(*old(m)).remove(key),
        match r {
            Some(l) => ip_held(*old(m)).contains_key(key) && ip_held(*old(m))[key] == l,
            None => !ip_held(*old(m)).contains_key(key),
        },
{
    m.remove(&key).map(|e| e.1)
}

/// `DashMap::new`: an empty map.
#[verifier::external_body]
fn new_key_map() -> (m: dashmap::DashMap<String, IpLimiters>)
    ensures
        (key_held(m) == Map::<Seq<char>, IpLimiters>::empty()),
{
    dashmap::DashMap::new()
}

/// `DashMap::insert`: the value stands under the key, in place of any before it.
#[verifier::external_body]
fn put_key(m: &mut dashmap::DashMap<String, IpLimiters>, key: String, value: IpLimiters)
    ensures
        key_held(*final(m)) == key_held(*old(m)).insert(key@, value),
{
    m.insert(key, value);
}

/// `DashMap::remove`: the value under the key, where there is one, leaves the map and is handed back.
#[verifier::external_body]
fn take_key(m: &mut dashmap::DashMap<String, IpLimiters>, key: &str) -> (r: Option<IpLimiters>)
    ensures
        key_held(*final(m)) == key_held(*old(m)).remove(key@),
        match r {
            Some(l) => key_held(*old(m)).contains_key(key@) && key_held(*old(m))[key@] == l,
            None => !key_held(*old(m)).contains_key(key@),
        },
{
    m.remove(key).map(|e| e.1)
}

/// A rate and burst as a limiter takes them: neither is zero, and the burst comes on top of the
/// rate.
pub open spec fn quota(rate_per_sec: u32, burst: u32) -> (u32, u32) {
    (
        if rate_per_sec > 1 {
            rate_per_sec
        } else {
            1
        },
        if rate_per_sec + burst > 1 {
            (rate_per_sec + burst) as u32
        } else {
            1
        },
    )
}

/// The limits of a client.
pub open spec fn limits_of(rps: u32, burst_rps: u32, tps: u32, burst_tps: u32) -> Limits {
    Limits { rps: quota(rps, burst_rps), tps: quota(tps, burst_tps) }
}

/// The limits of a whitelist entry.
pub open spec fn entry_limits(w: WhitelistEntry, d: RateLimitConfig) -> Limits {
    limits_of(
        crate::config::limit_or(w.rps, d.default_rps),
        crate::config::limit_or(w.burst_rps, d.default_burst_rps),
        crate::config::limit_or(w.tps, d.default_tps),
        crate::config::limit_or(w.burst_tps, d.default_burst_tps),
    )
}

/// The limits of a key of the configuration.
pub open spec fn api_key_limits(k: ApiKeyEntry, d: RateLimitConfig) -> Limits {
    limits_of(
        crate::config::limit_or(k.rps, d.default_rps),
        crate::config::limit_or(k.burst_rps, d.default_burst_rps),
        crate::config::limit_or(k.tps, d.default_tps),
        crate::config::limit_or(k.burst_tps, d.default_burst_tps),
    )
}

/// The limits of a client that the configuration says nothing of.
pub open spec fn default_limits(d: RateLimitConfig) -> Limits {
    limits_of(d.default_rps, d.default_burst_rps, d.default_tps, d.default_burst_tps)
}

/// The limits that a configuration gives an address.
pub open spec fn limits_for(config: Config, ip: IpAddr) -> Limits {
    limits_of(
        config.ip_rps(ip),
        config.ip_burst_rps(ip),
        config.ip_tps(ip),
        config.ip_burst_tps(ip),
    )
}

/// The limits by address that the whitelist sets up; of two entries for one address the later
/// counts.
pub open spec fn whitelist_limits(entries: Seq<WhitelistEntry>, d: RateLimitConfig) -> Map<
    IpKey,
    Limits,
>
    decreases entries.len(),
{
    if entries.len() == 0 {
        Map::empty()
    } else {
        whitelist_limits(entries.drop_last(), d).insert(
            net::ip_key(entries.last().ip),
            entry_limits(entries.last(), d),
        )
    }
}

/// The limits by key that the configuration sets up: those of keys that are not revoked; of two
/// entries for one key the later counts.
pub open spec fn keys_limits(entries: Seq<ApiKeyEntry>, d: RateLimitConfig) -> Map<
    Seq<char>,
    Limits,
>
    decreases entries.len(),
{
    if entries.len() == 0 {
        Map::empty()
    } else {
        let before = keys_limits(entries.drop_last(), d);
        let k = entries.last();
        if k.revoked {
            before
        } else {
            before.insert(k.key@, api_key_limits(k, d))
        }
    }
}

/// A map with a value under a key, which is only put there where the key has none.
pub open spec fn with_default<K>(m: Map<K, Limits>, key: K, limits: Limits) -> Map<K, Limits> {
    if m.contains_key(key) {
        m
    } else {
        m.insert(key, limits)
    }
}

/// A limiter for a rate and a burst on top of it.
fn create_limiter(rate_per_sec: u32, burst: u32) -> (l: Limiter)
    requires
        rate_per_sec + burst <= u32::MAX,
    ensures
        limiter::quota_of(l) == quota(rate_per_sec, burst),
        limiter::asked(l).len() == 0,
{
    let rate: u32 = if rate_per_sec > 1 {
        rate_per_sec
    } else {
        1
    };
    let sum: u32 = rate_per_sec + burst;
    let burst_size: u32 = if sum > 1 {
        sum
    } else {
        1
    };
    limiter::direct(rate, burst_size)
}

/// The limiters of one client.
fn create_limiters(rps: u32, burst_rps: u32, tps: u32, burst_tps: u32) -> (l: IpLimiters)
    requires
        rps + burst_rps <= u32::MAX,
        tps + burst_tps <= u32::MAX,
    ensures
        l.limits() == limits_of(rps, burst_rps, tps, burst_tps),
        l.unasked(),
{
    IpLimiters { rps: create_limiter(rps, burst_rps), tps: create_limiter(tps, burst_tps) }
}

/// Limiters for the whitelist.
fn set_up_ips(config: &Config) -> (ip_limiters: dashmap::DashMap<IpKey, IpLimiters>)
    requires
        config.limits_in_range(),
    ensures
        limits_in(ip_held(ip_limiters)) == whitelist_limits(config.whitelist@, config.rate_limits),
        none_asked(ip_held(ip_limiters)),
{
    let d = config.rate_limits;
    let mut ip_limiters = new_ip_map();
    let mut i: usize = 0;
    assert(config.whitelist@.take(0) =~= Seq::<WhitelistEntry>::empty());
    assert(limits_in(ip_held(ip_limiters)) =~= Map::<IpKey, Limits>::empty());
    while i < config.whitelist.len()
        invariant
            i <= config.whitelist@.len(),
            d == config.rate_limits,
            config.limits_in_range(),
            limits_in(ip_held(ip_limiters)) == whitelist_limits(config.whitelist@.take(i as int), d),
            none_asked(ip_held(ip_limiters)),
        decreases config.whitelist@.len() - i,
    {
        assert(config.whitelist@.take(i + 1).drop_last() =~= config.whitelist@.take(i as int));
        let w = &config.whitelist[i];
        let rps: u32 = w.rps.unwrap_or(d.default_rps);
        let tps: u32 = w.tps.unwrap_or(d.default_tps);
        let burst_rps: u32 = w.burst_rps.unwrap_or(d.default_burst_rps);
        let burst_tps: u32 = w.burst_tps.unwrap_or(d.default_burst_tps);
        let limiters = create_limiters(rps, burst_rps, tps, burst_tps);
        proof {
            lemma_limits_of_inserted(ip_held(ip_limiters), net::ip_key(w.ip), limiters);
        }
        put_ip(&mut ip_limiters, w.ip.key(), limiters);
        i = i + 1;
    }
    assert(config.whitelist@.take(i as int) =~= config.whitelist@);
    ip_limiters
}

/// Limiters for the keys that are not revoked.
fn set_up_keys(config: &Config) -> (key_limiters: dashmap::DashMap<String, IpLimiters>)
    requires
        config.limits_in_range(),
    ensures
        limits_in(key_held(key_limiters)) == keys_limits(config.api_keys@, config.rate_limits),
        none_asked(key_held(key_limiters)),
{
    let d = config.rate_limits;
    let mut key_limiters = new_key_map();
    let mut j: usize = 0;
    assert(config.api_keys@.take(0) =~= Seq::<ApiKeyEntry>::empty());
    assert(limits_in(key_held(key_limiters)) =~= Map::<Seq<char>, Limits>::empty());
    while j < config.api_keys.len()
        invariant
            j <= config.api_keys@.len(),
            d == config.rate_limits,
            config.limits_in_range(),
            limits_in(key_held(key_limiters)) == keys_limits(config.api_keys@.take(j as int), d),
            none_asked(key_held(key_limiters)),
        decreases config.api_keys@.len() - j,
    {
        assert(config.api_keys@.take(j + 1).drop_last() =~= config.api_keys@.take(j as int));
        let k = &config.api_keys[j];
        if !k.revoked {
            let rps: u32 = k.rps.unwrap_or(d.default_rps);
            let tps: u32 = k.tps.unwrap_or(d.default_tps);
            let burst_rps: u32 = k.burst_rps.unwrap_or(d.default_burst_rps);
            let burst_tps: u32 = k.burst_tps.unwrap_or(d.default_burst_tps);
            let limiters = create_limiters(rps, burst_rps, tps, burst_tps);
            proof {
                lemma_limits_of_inserted(key_held(key_limiters), k.key@, limiters);
            }
            put_key(&mut key_limiters, k.key.clone(), limiters);
        }
        j = j + 1;
    }
    assert(config.api_keys@.take(j as int) =~= config.api_keys@);
    key_limiters
}

/// What the limiters' answers come to; the error says whether it was the one for transactions,
/// which is asked only where the other one let the request pass.
pub open spec fn verdict_on(rps_ok: bool, tps_ok: Option<bool>) -> Result<(), bool> {
    if !rps_ok {
        Err(false)
    } else if tps_ok == Some(false) {
        Err(true)
    } else {
        Ok(())
    }
}

/// What the limiters' answers come to; the error says whether it was the one for transactions,
/// which is asked only where the other one let the request pass.
pub fn verdict(rps_ok: bool, tps_ok: Option<bool>) -> (r: Result<(), bool>)
    ensures
        r == verdict_on(rps_ok, tps_ok),
{
    if !rps_ok {
        return Err(false);
    }
    match tps_ok {
        Some(ok) => if ok {
            Ok(())
        } else {
            Err(true)
        },
        None => Ok(()),
    }
}

/// Asks a client's limiters whether a request may pass.
fn ask(limiters: &mut IpLimiters, is_send_tx: bool) -> (r: Result<(), bool>)
    ensures
        final(limiters).answered(*old(limiters), is_send_tx, r),
{
    let rps_ok = limiter::may_pass(&mut limiters.rps);
    let tps_ok = if rps_ok && is_send_tx {
        Some(limiter::may_pass(&mut limiters.tps))
    } else {
        None
    };
    verdict(rps_ok, tps_ok)
}

/// Asks a client's limiter for requests alone.
fn ask_rps(limiters: &mut IpLimiters) -> (r: Result<(), ()>)
    ensures
        final(limiters).answered(*old(limiters), false, by_rps(r is Ok)),
{
    let rps_ok = limiter::may_pass(&mut limiters.rps);
    match verdict(rps_ok, None) {
        Ok(_) => Ok(()),
        Err(_) => Err(()),
    }
}

/// What the limiter for requests answered, as a verdict.
pub open spec fn by_rps(passed: bool) -> Result<(), bool> {
    if passed {
        Ok(())
    } else {
        Err(false)
    }
}

/// Where only the limit on requests is asked, a refusal is never one of the limit on transactions.
pub proof fn law_refusal_by_the_limit_on_requests(passed: bool)
    ensures
        by_rps(passed) is Ok <==> passed,
        !passed ==> by_rps(passed) == Err::<(), bool>(false),
{
}

/// The limiters that a client finds: those that are held for it, and only where there are none new
/// ones with these limits.
pub open spec fn are_found<K>(
    held: Map<K, IpLimiters>,
    key: K,
    limits: Limits,
    l: IpLimiters,
) -> bool {
    if held.contains_key(key) {
        l == held[key]
    } else {
        l.limits() == limits && l.unasked()
    }
}

/// What is held after a client's request: its limiters were asked and are held, and nobody else's have
/// changed.
pub open spec fn client_asked<K>(
    before: Map<K, IpLimiters>,
    after: Map<K, IpLimiters>,
    key: K,
    limits: Limits,
    is_send_tx: bool,
    r: Result<(), bool>,
) -> bool {
    &&& after == before.insert(key, after[key])
    &&& exists|l: IpLimiters| #[trigger]
        are_found(before, key, limits, l) && after[key].answered(l, is_send_tx, r)
}

/// What a request does to the limits that are held.
proof fn lemma_limits_kept<K>(
    before: Map<K, IpLimiters>,
    after: Map<K, IpLimiters>,
    key: K,
    limits: Limits,
    is_send_tx: bool,
    r: Result<(), bool>,
)
    requires
        client_asked(before, after, key, limits, is_send_tx, r),
    ensures
        limits_in(after) == with_default(limits_in(before), key, limits),
{
    let l = choose|l: IpLimiters| #[trigger]
        are_found(before, key, limits, l) && after[key].answered(l, is_send_tx, r);
    assert(after[key].limits() == l.limits());
    lemma_limits_of_inserted(before, key, after[key]);
    assert(limits_in(after) =~= with_default(limits_in(before), key, limits));
}

/// The limiters of all clients seen so far.
pub struct RateLimiterMiddleware {
    pub ip_limiters: dashmap::DashMap<IpKey, IpLimiters>,
    pub key_limiters: dashmap::DashMap<String, IpLimiters>,
    pub config: Config,
}

impl RateLimiterMiddleware {
    /// Every rate and burst of the configuration can be added up.
    pub open spec fn wf(self) -> bool {
        self.config.limits_in_range()
    }

    /// The limiters by address.
    pub open spec fn held_by_ip(self) -> Map<IpKey, IpLimiters> {
        ip_held(self.ip_limiters)
    }

    /// The limiters by key.
    pub open spec fn held_by_key(self) -> Map<Seq<char>, IpLimiters> {
        key_held(self.key_limiters)
    }

    /// The limits by address.
    pub open spec fn by_ip(self) -> Map<IpKey, Limits> {
        limits_in(self.held_by_ip())
    }

    /// The limits by key.
    pub open spec fn by_key(self) -> Map<Seq<char>, Limits> {
        limits_in(self.held_by_key())
    }

    /// None of the limiters has been asked yet.
    pub open spec fn unasked(self) -> bool {
        none_asked(self.held_by_ip()) && none_asked(self.held_by_key())
    }

    /// The limiters of an address were asked whether a request may pass, `r` is what they answered,
    /// and nothing else happened.
    pub open spec fn asked_by_ip(
        self,
        before: RateLimiterMiddleware,
        ip: IpAddr,
        is_send_tx: bool,
        r: Result<(), bool>,
    ) -> bool {
        &&& self.config == before.config
        &&& self.held_by_key() == before.held_by_key()
        &&& client_asked(
            before.held_by_ip(),
            self.held_by_ip(),
            net::ip_key(ip),
            limits_for(before.config, ip),
            is_send_tx,
            r,
        )
    }

    /// The limiters of a key were asked whether a request may pass, `r` is what they answered, and
    /// nothing else happened.
    pub open spec fn asked_by_key(
        self,
        before: RateLimiterMiddleware,
        key: Seq<char>,
        is_send_tx: bool,
        r: Result<(), bool>,
    ) -> bool {
        &&& self.config == before.config
        &&& self.held_by_ip() == before.held_by_ip()
        &&& client_asked(
            before.held_by_key(),
            self.held_by_key(),
            key,
            default_limits(before.config.rate_limits),
            is_send_tx,
            r,
        )
    }

    /// Sets up limiters for the whitelist and for the keys that are not revoked.
    pub fn new(config: Config) -> (m: RateLimiterMiddleware)
        requires
            config.limits_in_range(),
        ensures
            m.wf(),
            m.config == config,
            m.by_ip() == whitelist_limits(config.whitelist@, config.rate_limits),
            m.by_key() == keys_limits(config.api_keys@, config.rate_limits),
            m.unasked(),
    {
        let ip_limiters = set_up_ips(&config);
        let key_limiters = set_up_keys(&config);
        RateLimiterMiddleware { ip_limiters, key_limiters, config }
    }

    /// Starts over with another configuration.
    pub fn reload(&mut self, config: Config)
        requires
            config.limits_in_range(),
        ensures
            final(self).wf(),
            final(self).config == config,
            final(self).by_ip() == whitelist_limits(config.whitelist@, config.rate_limits),
            final(self).by_key() == keys_limits(config.api_keys@, config.rate_limits),
            final(self).unasked(),
    {
        self.config = config;
        self.rebuild();
    }

    /// Starts over with the configuration as it is.
    pub fn rebuild(&mut self)
        requires
            old(self).wf(),
        ensures
            final(self).wf(),
            final(self).config == old(self).config,
            final(self).by_ip() == whitelist_limits(
                old(self).config.whitelist@,
                old(self).config.rate_limits,
            ),
            final(self).by_key() == keys_limits(
                old(self).config.api_keys@,
                old(self).config.rate_limits,
            ),
            final(self).unasked(),
    {
        self.ip_limiters = set_up_ips(&self.config);
        self.key_limiters = set_up_keys(&self.config);
    }

    /// Takes out the limiters of an address; one that has none yet gets those of the configuration.
    fn get_or_create_limiters(&mut self, ip: &IpAddr) -> (l: IpLimiters)
        requires
            old(self).wf(),
        ensures
            final(self).wf(),
            final(self).config == old(self).config,
            final(self).held_by_key() == old(self).held_by_key(),
            final(self).held_by_ip() == old(self).held_by_ip().remove(net::ip_key(*ip)),
            are_found(
                old(self).held_by_ip(),
                net::ip_key(*ip),
                limits_for(old(self).config, *ip),
                l,
            ),
    {
        if let Some(existing) = take_ip(&mut self.ip_limiters, ip.key()) {
            return existing;
        }
        proof {
            self.config.lemma_ip_limits_in_range(*ip);
        }
        create_limiters(
            self.config.get_ip_rps(ip),
            self.config.get_ip_burst_rps(ip),
            self.config.get_ip_tps(ip),
            self.config.get_ip_burst_tps(ip),
        )
    }

    /// Takes out the limiters of a key; one that has none yet gets the default ones.
    fn get_or_create_key_limiters(&mut self, key: &str) -> (l: IpLimiters)
        requires
            old(self).wf(),
        ensures
            final(self).wf(),
            final(self).config == old(self).config,
            final(self).held_by_ip() == old(self).held_by_ip(),
            final(self).held_by_key() == old(self).held_by_key().remove(key@),
            are_found(
                old(self).held_by_key(),
                key@,
                default_limits(old(self).config.rate_limits),
                l,
            ),
    {
        if let Some(existing) = take_key(&mut self.key_limiters, key) {
            return existing;
        }
        let d = self.config.rate_limits;
        create_limiters(d.default_rps, d.default_burst_rps, d.default_tps, d.default_burst_tps)
    }

    /// Puts the limiters of an address back after they were asked.
    fn put_back(&mut self, ip: &IpAddr, l: IpLimiters)
        requires
            old(self).wf(),
        ensures
            final(self).wf(),
            final(self).config == old(self).config,
            final(self).held_by_key() == old(self).held_by_key(),
            final(self).held_by_ip() == old(self).held_by_ip().insert(net::ip_key(*ip), l),
    {
        put_ip(&mut self.ip_limiters, ip.key(), l);
    }

    /// Puts the limiters of a key back after they were asked.
    fn put_key_back(&mut self, key: &str, l: IpLimiters)
        requires
            old(self).wf(),
        ensures
            final(self).wf(),
            final(self).config == old(self).config,
            final(self).held_by_ip() == old(self).held_by_ip(),
            final(self).held_by_key() == old(self).held_by_key().insert(key@, l),
    {
        put_key(&mut self.key_limiters, key.to_string(), l);
    }

    /// Whether an address may send a request now; the error says whether it was the limit on
    /// transactions that it met. It is the address's own limiters that are asked, each at most once;
    /// what they answer depends on the time.
    pub fn check(&mut self, ip: &IpAddr, is_send_tx: bool) -> (r: Result<(), bool>)
        requires
            old(self).wf(),
        ensures
            final(self).wf(),
            final(self).asked_by_ip(*old(self), *ip, is_send_tx, r),
            final(self).by_key() == old(self).by_key(),
            final(self).by_ip() == with_default(
                old(self).by_ip(),
                net::ip_key(*ip),
                limits_for(old(self).config, *ip),
            ),
    {
        let mut limiters = self.get_or_create_limiters(ip);
        let ghost found = limiters;
        let r = ask(&mut limiters, is_send_tx);
        self.put_back(ip, limiters);
        proof {
            old(self).lemma_ip_asked(*self, *ip, found, is_send_tx, r);
        }
        r
    }

    /// Whether an address may send a request now, by its limit on requests alone.
    pub fn check_rps(&mut self, ip: &IpAddr) -> (r: Result<(), ()>)
        requires
            old(self).wf(),
        ensures
            final(self).wf(),
            final(self).asked_by_ip(*old(self), *ip, false, by_rps(r is Ok)),
            final(self).by_key() == old(self).by_key(),
            final(self).by_ip() == with_default(
                old(self).by_ip(),
                net::ip_key(*ip),
                limits_for(old(self).config, *ip),
            ),
    {
        let mut limiters = self.get_or_create_limiters(ip);
        let ghost found = limiters;
        let r = ask_rps(&mut limiters);
        self.put_back(ip, limiters);
        proof {
            old(self).lemma_ip_asked(*self, *ip, found, false, by_rps(r is Ok));
        }
        r
    }

    /// Whether the holder of a key may send a request now; the error says whether it was the limit
    /// on transactions that it met. It is the key's own limiters that are asked, each at most once;
    /// what they answer depends on the time.
    pub fn check_by_key(&mut self, key: &str, is_send_tx: bool) -> (r: Result<(), bool>)
        requires
            old(self).wf(),
        ensures
            final(self).wf(),
            final(self).asked_by_key(*old(self), key@, is_send_tx, r),
            final(self).by_ip() == old(self).by_ip(),
            final(self).by_key() == with_default(
                old(self).by_key(),
                key@,
                default_limits(old(self).config.rate_limits),
            ),
    {
        let mut limiters = self.get_or_create_key_limiters(key);
        let ghost found = limiters;
        let r = ask(&mut limiters, is_send_tx);
        self.put_key_back(key, limiters);
        proof {
            old(self).lemma_key_asked(*self, key@, found, is_send_tx, r);
        }
        r
    }

    /// Whether the holder of a key may send a request now, by its limit on requests alone.
    pub fn check_rps_by_key(&mut self, key: &str) -> (r: Result<(), ()>)
        requires
            old(self).wf(),
        ensures
            final(self).wf(),
            final(self).asked_by_key(*old(self), key@, false, by_rps(r is Ok)),
            final(self).by_ip() == old(self).by_ip(),
            final(self).by_key() == with_default(
                old(self).by_key(),
                key@,
                default_limits(old(self).config.rate_limits),
            ),
    {
        let mut limiters = self.get_or_create_key_limiters(key);
        let ghost found = limiters;
        let r = ask_rps(&mut limiters);
        self.put_key_back(key, limiters);
        proof {
            old(self).lemma_key_asked(*self, key@, found, false, by_rps(r is Ok));
        }
        r
    }

    /// Limiters that were taken out, asked and put back were asked where they are held.
    proof fn lemma_ip_asked(
        self,
        after: RateLimiterMiddleware,
        ip: IpAddr,
        found: IpLimiters,
        is_send_tx: bool,
        r: Result<(), bool>,
    )
        requires
            after.config == self.config,
            after.held_by_key() == self.held_by_key(),
            after.held_by_ip() == self.held_by_ip().remove(net::ip_key(ip)).insert(
                net::ip_key(ip),
                after.held_by_ip()[net::ip_key(ip)],
            ),
            are_found(self.held_by_ip(), net::ip_key(ip), limits_for(self.config, ip), found),
            after.held_by_ip()[net::ip_key(ip)].answered(found, is_send_tx, r),
        ensures
            after.asked_by_ip(self, ip, is_send_tx, r),
            after.by_ip() == with_default(
                self.by_ip(),
                net::ip_key(ip),
                limits_for(self.config, ip),
            ),
    {
        let key = net::ip_key(ip);
        let limits = limits_for(self.config, ip);
        assert(after.held_by_ip() =~= self.held_by_ip().insert(key, after.held_by_ip()[key]));
        lemma_limits_kept(self.held_by_ip(), after.held_by_ip(), key, limits, is_send_tx, r);
    }

    /// Limiters that were taken out, asked and put back were asked where they are held.
    proof fn lemma_key_asked(
        self,
        after: RateLimiterMiddleware,
        key: Seq<char>,
        found: IpLimiters,
        is_send_tx: bool,
        r: Result<(), bool>,
    )
        requires
            after.config == self.config,
            after.held_by_ip() == self.held_by_ip(),
            after.held_by_key() == self.held_by_key().remove(key).insert(
                key,
                after.held_by_key()[key],
            ),
            are_found(
                self.held_by_key(),
                key,
                default_limits(self.config.rate_limits),
                found,
            ),
            after.held_by_key()[key].answered(found, is_send_tx, r),
        ensures
            after.asked_by_key(self, key, is_send_tx, r),
            after.by_key() == with_default(
                self.by_key(),
                key,
                default_limits(self.config.rate_limits),
            ),
    {
        let limits = default_limits(self.config.rate_limits);
        assert(after.held_by_key() =~= self.held_by_key().insert(key, after.held_by_key()[key]));
        lemma_limits_kept(self.held_by_key(), after.held_by_key(), key, limits, is_send_tx, r);
    }
}

/// A client is held to its own limiters, which nobody else's requests change.
pub proof fn law_client_keeps_its_limiters<K>(
    before: Map<K, IpLimiters>,
    after: Map<K, IpLimiters>,
    client: K,
    other: K,
    limits: Limits,
    is_send_tx: bool,
    r: Result<(), bool>,
)
    requires
        before.contains_key(client),
        client_asked(before, after, other, limits, is_send_tx, r),
    ensures
        after.contains_key(client),
        after[client].limits() == before[client].limits(),
        other != client ==> after[client] == before[client],
        other == client ==> after[client].answered(before[client], is_send_tx, r),
{
}

/// An address occurs in the whitelist once at most.
pub open spec fn listed_once(entries: Seq<WhitelistEntry>, ip: IpAddr) -> bool {
    forall|i: int, j: int|
        0 <= i < j < entries.len() && (#[trigger] entries[i]).ip == ip ==> (
        #[trigger] entries[j]).ip != ip
}

/// Where an address does not occur twice in the whitelist, the limits set up in advance are those that
/// the configuration gives it, so that it does not matter whether a client's limiters were made in
/// advance or when it was first seen.
pub proof fn law_limits_follow_config(config: Config, ip: IpAddr)
    requires
        listed_once(config.whitelist@, ip),
    ensures
        ({
            let table = whitelist_limits(config.whitelist@, config.rate_limits);
            with_default(table, net::ip_key(ip), limits_for(config, ip))[net::ip_key(ip)]
                == limits_for(config, ip)
        }),
{
    lemma_table_entry(config.whitelist@, config.rate_limits, ip);
}

proof fn lemma_table_entry(entries: Seq<WhitelistEntry>, d: RateLimitConfig, ip: IpAddr)
    requires
        listed_once(entries, ip),
    ensures
        match crate::config::entry_for(entries, ip) {
            Some(w) => {
                &&& whitelist_limits(entries, d).contains_key(net::ip_key(ip))
                &&& whitelist_limits(entries, d)[net::ip_key(ip)] == entry_limits(w, d)
                &&& w.ip == ip
                &&& exists|i: int| 0 <= i < entries.len() && entries[i] == w
            },
            None => {
                &&& !whitelist_limits(entries, d).contains_key(net::ip_key(ip))
                &&& forall|i: int| 0 <= i < entries.len() ==> (#[trigger] entries[i]).ip != ip
            },
        },
    decreases entries.len(),
{
    if entries.len() > 0 {
        let rest = entries.drop_last();
        let last = entries.last();
        assert(entries[entries.len() - 1] == last);
        assert forall|i: int| 0 <= i < rest.len() implies (#[trigger] entries[i]) == rest[i] by {}
        assert forall|i: int, j: int|
            0 <= i < j < rest.len() && (#[trigger] rest[i]).ip == ip implies (
        #[trigger] rest[j]).ip != ip by {
            assert(entries[i] == rest[i] && entries[j] == rest[j]);
        }
        lemma_table_entry(rest, d, ip);
        crate::config::lemma_entry_for_push(entries, ip);
        net::lemma_ip_key_injective(last.ip, ip);
        if last.ip == ip {
            assert forall|i: int| 0 <= i < rest.len() implies (#[trigger] rest[i]).ip != ip by {
                assert(entries[i] == rest[i]);
            }
        }
        match crate::config::entry_for(rest, ip) {
            Some(w) => {
                let i = choose|i: int| 0 <= i < rest.len() && rest[i] == w;
                assert(entries[i] == w);
            },
            None => {},
        }
    }
}

/// A limiter replenishes at the configured rate, and at one in a second where that is zero; it holds the
/// burst on top of the rate, and one at least. Two rates above zero, and two bursts above zero, are
/// never the same to it.
pub proof fn law_limiter_has_the_configured_rate(rate: u32, burst: u32, other: u32)
    requires
        rate + burst <= u32::MAX,
        other + burst <= u32::MAX,
    ensures
        rate >= 1 ==> quota(rate, burst).0 == rate,
        rate == 0 ==> quota(rate, burst).0 == 1,
        rate + burst >= 1 ==> quota(rate, burst).1 == rate + burst,
        rate + burst == 0 ==> quota(rate, burst).1 == 1,
        rate >= 1 && other >= 1 && quota(rate, burst) == quota(other, burst) ==> rate == other,
{
}

/// The limits of an address are, for requests and for transactions each, those that its entry gives
/// for that, and the defaults for that where it gives none.
pub proof fn law_address_has_its_own_limits(config: Config, ip: IpAddr, i: int)
    requires
        config.limits_in_range(),
        0 <= i <= config.whitelist@.len(),
        forall|j: int| 0 <= j < i ==> (#[trigger] config.whitelist@[j]).ip != ip,
        i < config.whitelist@.len() ==> config.whitelist@[i].ip == ip,
    ensures
        ({
            let d = config.rate_limits;
            let w = config.whitelist@[i];
            let found = i < config.whitelist@.len();
            let rps = if found && w.rps is Some { w.rps->0 } else { d.default_rps };
            let tps = if found && w.tps is Some { w.tps->0 } else { d.default_tps };
            let more_rps = if found && w.burst_rps is Some {
                w.burst_rps->0
            } else {
                d.default_burst_rps
            };
            let more_tps = if found && w.burst_tps is Some {
                w.burst_tps->0
            } else {
                d.default_burst_tps
            };
            let limits = limits_for(config, ip);
            &&& limits.rps.0 == if rps >= 1 { rps } else { 1 }
            &&& limits.tps.0 == if tps >= 1 { tps } else { 1 }
            &&& limits.rps.1 == if rps + more_rps >= 1 { rps + more_rps } else { 1 }
            &&& limits.tps.1 == if tps + more_tps >= 1 { tps + more_tps } else { 1 }
        }),
{
    crate::config::law_entry_overrides_the_defaults(config, ip, i);
    config.lemma_ip_limits_in_range(ip);
}

/// The limits of a key are, for requests and for transactions each, those that its last entry gives that
/// is not revoked, and the defaults where it gives none. A key without such an entry has no limits of
/// its own.
pub proof fn law_key_has_its_own_limits(config: Config, i: int, key: Seq<char>)
    requires
        config.limits_in_range(),
        -1 <= i < config.api_keys@.len(),
        forall|j: int|
            i < j < config.api_keys@.len() && (#[trigger] config.api_keys@[j]).key@ == key ==>
                config.api_keys@[j].revoked,
        i >= 0 ==> config.api_keys@[i].key@ == key && !config.api_keys@[i].revoked,
    ensures
        ({
            let d = config.rate_limits;
            let k = config.api_keys@[i];
            let all = keys_limits(config.api_keys@, d);
            let rps = if k.rps is Some { k.rps->0 } else { d.default_rps };
            let tps = if k.tps is Some { k.tps->0 } else { d.default_tps };
            let more_rps = if k.burst_rps is Some { k.burst_rps->0 } else { d.default_burst_rps };
            let more_tps = if k.burst_tps is Some { k.burst_tps->0 } else { d.default_burst_tps };
            let limits = all[key];
            &&& all.contains_key(key) <==> i >= 0
            &&& i >= 0 ==> {
                &&& limits.rps.0 == if rps >= 1 { rps } else { 1 }
                &&& limits.tps.0 == if tps >= 1 { tps } else { 1 }
                &&& limits.rps.1 == if rps + more_rps >= 1 { rps + more_rps } else { 1 }
                &&& limits.tps.1 == if tps + more_tps >= 1 { tps + more_tps } else { 1 }
            }
        }),
{
    lemma_keys_limits(config.api_keys@, config.rate_limits, i, key);
    if i >= 0 {
        let k = config.api_keys@[i];
        assert(!k.revoked);
    }
}

proof fn lemma_keys_limits(entries: Seq<ApiKeyEntry>, d: RateLimitConfig, i: int, key: Seq<char>)
    requires
        -1 <= i < entries.len(),
        forall|j: int|
            i < j < entries.len() && (#[trigger] entries[j]).key@ == key ==> entries[j].revoked,
        i >= 0 ==> entries[i].key@ == key && !entries[i].revoked,
    ensures
        keys_limits(entries, d).contains_key(key) <==> i >= 0,
        i >= 0 ==> keys_limits(entries, d)[key] == api_key_limits(entries[i], d),
    decreases entries.len(),
{
    if entries.len() > 0 {
        let rest = entries.drop_last();
        let last = entries.len() - 1;
        assert(entries[last] == entries.last());
        if i < last {
            assert forall|j: int| i < j < rest.len() && (#[trigger] rest[j]).key@ == key implies rest[j].revoked by {
                assert(rest[j] == entries[j]);
            }
            if i >= 0 {
                assert(rest[i] == entries[i]);
            }
            lemma_keys_limits(rest, d, i, key);
        }
    }
}

/// A client that the configuration says nothing of has the default limits, for requests and for
/// transactions each.
pub proof fn law_unknown_client_has_the_default_limits(d: RateLimitConfig)
    requires
        d.default_rps + d.default_burst_rps <= u32::MAX,
        d.default_tps + d.default_burst_tps <= u32::MAX,
    ensures
        ({
            let limits = default_limits(d);
            &&& d.default_rps >= 1 ==> limits.rps.0 == d.default_rps && limits.rps.1
                == d.default_rps + d.default_burst_rps
            &&& d.default_tps >= 1 ==> limits.tps.0 == d.default_tps && limits.tps.1
                == d.default_tps + d.default_burst_tps
            &&& d.default_rps == 0 ==> limits.rps.0 == 1
            &&& d.default_tps == 0 ==> limits.tps.0 == 1
            &&& limits.rps.1 >= 1 && limits.tps.1 >= 1
        }),
{
}

/// A request is refused for the limit on requests exactly where that limiter did not let it pass, and
/// for the limit on transactions exactly where that one was asked besides and did not.
pub proof fn law_refused_by_the_limiter_that_said_no(rps_ok: bool, tps_ok: Option<bool>)
    ensures
        verdict_on(rps_ok, tps_ok) == Err::<(), bool>(false) <==> !rps_ok,
        verdict_on(rps_ok, tps_ok) == Err::<(), bool>(true) <==> rps_ok && tps_ok == Some(false),
        verdict_on(rps_ok, tps_ok) is Ok <==> rps_ok && tps_ok != Some(false),
{
}

/// A request asks the client's limiter for requests once. Only one that sends transactions, and that this
/// one let pass, asks the limiter for transactions, once; what does not ask it uses none of it up.
pub proof fn law_each_limiter_is_asked_at_most_once(
    before: IpLimiters,
    after: IpLimiters,
    is_send_tx: bool,
    r: Result<(), bool>,
)
    requires
        after.answered(before, is_send_tx, r),
    ensures
        limiter::asked(after.rps).len() == limiter::asked(before.rps).len() + 1,
        limiter::asked(after.rps).drop_last() == limiter::asked(before.rps),
        r == Err::<(), bool>(false) <==> !limiter::asked(after.rps).last().1,
        !is_send_tx || r == Err::<(), bool>(false) ==> after.tps == before.tps,
        is_send_tx && r != Err::<(), bool>(false) ==> {
            &&& limiter::asked(after.tps).len() == limiter::asked(before.tps).len() + 1
            &&& limiter::asked(after.tps).drop_last() == limiter::asked(before.tps)
            &&& r is Ok <==> limiter::asked(after.tps).last().1
        },
        r == Err::<(), bool>(true) ==> is_send_tx,
        after.limits() == before.limits(),
{
}

/// A request of an address asks that address's limiters: those that are held for it, as they were left,
/// and new ones with its limits only where there are none. Nothing that is held for a key, or for
/// another address, changes; and what is asked for a key changes nothing that is held for an address.
pub proof fn law_request_asks_its_own_limiters(
    before: RateLimiterMiddleware,
    after: RateLimiterMiddleware,
    ip: IpAddr,
    other: IpAddr,
    key: Seq<char>,
    another: Seq<char>,
    is_send_tx: bool,
    r: Result<(), bool>,
)
    ensures
        after.asked_by_ip(before, ip, is_send_tx, r) ==> {
            let k = net::ip_key(ip);
            let o = net::ip_key(other);
            &&& after.held_by_ip().contains_key(k)
            &&& before.held_by_ip().contains_key(k) ==> after.held_by_ip()[k].answered(
                before.held_by_ip()[k],
                is_send_tx,
                r,
            )
            &&& !before.held_by_ip().contains_key(k) ==> {
                &&& after.held_by_ip()[k].limits() == limits_for(before.config, ip)
                &&& limiter::asked(after.held_by_ip()[k].rps).len() == 1
            }
            &&& other != ip ==> (after.held_by_ip().contains_key(o)
                <==> before.held_by_ip().contains_key(o))
            &&& other != ip && before.held_by_ip().contains_key(o) ==> after.held_by_ip()[o]
                == before.held_by_ip()[o]
            &&& after.held_by_key() == before.held_by_key()
        },
        after.asked_by_key(before, key, is_send_tx, r) ==> {
            &&& after.held_by_key().contains_key(key)
            &&& before.held_by_key().contains_key(key) ==> after.held_by_key()[key].answered(
                before.held_by_key()[key],
                is_send_tx,
                r,
            )
            &&& !before.held_by_key().contains_key(key) ==> {
                &&& after.held_by_key()[key].limits() == default_limits(before.config.rate_limits)
                &&& limiter::asked(after.held_by_key()[key].rps).len() == 1
            }
            &&& another != key ==> (after.held_by_key().contains_key(another)
                <==> before.held_by_key().contains_key(another))
            &&& another != key && before.held_by_key().contains_key(another)
                ==> after.held_by_key()[another] == before.held_by_key()[another]
            &&& after.held_by_ip() == before.held_by_ip()
        },
{
    net::lemma_ip_key_injective(ip, other);
    if after.asked_by_ip(before, ip, is_send_tx, r) {
        let k = net::ip_key(ip);
        let l = choose|l: IpLimiters| #[trigger]
            are_found(before.held_by_ip(), k, limits_for(before.config, ip), l)
                && after.held_by_ip()[k].answered(l, is_send_tx, r);
        assert(after.held_by_ip()[k].answered(l, is_send_tx, r));
    }
    if after.asked_by_key(before, key, is_send_tx, r) {
        let limits = default_limits(before.config.rate_limits);
        let l = choose|l: IpLimiters| #[trigger]
            are_found(before.held_by_key(), key, limits, l) && after.held_by_key()[key].answered(
                l,
                is_send_tx,
                r,
            );
        assert(after.held_by_key()[key].answered(l, is_send_tx, r));
    }
}

/// A request of an address, and what its limiters answered.
pub struct Call {
    pub ip: IpAddr,
    pub is_send_tx: bool,
    pub r: Result<(), bool>,
}

/// `states` are those that requests lead through, one after the other.
pub open spec fn is_run(states: Seq<RateLimiterMiddleware>, calls: Seq<Call>) -> bool {
    &&& states.len() == calls.len() + 1
    &&& forall|i: int|
        0 <= i < calls.len() ==> states[i + 1].asked_by_ip(
            states[i],
            (#[trigger] calls[i]).ip,
            calls[i].is_send_tx,
            calls[i].r,
        )
}

/// How many of the requests come from an address.
pub open spec fn calls_of(calls: Seq<Call>, ip: IpAddr) -> nat
    decreases calls.len(),
{
    if calls.len() == 0 {
        0
    } else {
        calls_of(calls.drop_last(), ip) + if calls.last().ip == ip {
            1nat
        } else {
            0
        }
    }
}

/// How many of the requests come from an address, send transactions, and stayed within the limit on
/// requests.
pub open spec fn sends_of(calls: Seq<Call>, ip: IpAddr) -> nat
    decreases calls.len(),
{
    if calls.len() == 0 {
        0
    } else {
        let c = calls.last();
        sends_of(calls.drop_last(), ip) + if c.ip == ip && c.is_send_tx && c.r != Err::<
            (),
            bool,
        >(false) {
            1nat
        } else {
            0
        }
    }
}

/// What becomes of a request of an address where all its requests come at one instant: the first are
/// within the limit on requests, as many as its burst, and of those that send transactions the first
/// are within the limit on these, as many as its burst.
pub open spec fn burst_verdict(
    limits: Limits,
    earlier: Seq<Call>,
    ip: IpAddr,
    is_send_tx: bool,
) -> Result<(), bool> {
    if calls_of(earlier, ip) >= limits.rps.1 {
        Err(false)
    } else if is_send_tx && sends_of(earlier, ip) >= limits.tps.1 {
        Err(true)
    } else {
        Ok(())
    }
}

/// All of it was asked at one instant.
pub open spec fn all_at(asked: Seq<(nat, bool)>, at: nat) -> bool {
    forall|i: int| 0 <= i < asked.len() ==> (#[trigger] asked[i]).0 == at
}

impl RateLimiterMiddleware {
    /// How the limiter for requests of an address was asked.
    pub open spec fn rps_asked(self, ip: IpAddr) -> Seq<(nat, bool)> {
        if self.held_by_ip().contains_key(net::ip_key(ip)) {
            limiter::asked(self.held_by_ip()[net::ip_key(ip)].rps)
        } else {
            Seq::empty()
        }
    }

    /// How the limiter for transactions of an address was asked.
    pub open spec fn tps_asked(self, ip: IpAddr) -> Seq<(nat, bool)> {
        if self.held_by_ip().contains_key(net::ip_key(ip)) {
            limiter::asked(self.held_by_ip()[net::ip_key(ip)].tps)
        } else {
            Seq::empty()
        }
    }

    /// The limiters of an address were asked at one instant only.
    pub open spec fn asked_only_at(self, ip: IpAddr, at: nat) -> bool {
        all_at(self.rps_asked(ip), at) && all_at(self.tps_asked(ip), at)
    }

    /// The limiters of an address after these requests, all at one instant: each was asked as often as
    /// it had to be, and it is the first that passed.
    spec fn is_burst(self, config: Config, ip: IpAddr, calls: Seq<Call>) -> bool {
        let limits = limits_for(config, ip);
        let key = net::ip_key(ip);
        &&& self.config == config
        &&& self.held_by_ip().contains_key(key) ==> self.held_by_ip()[key].limits() == limits
        &&& self.rps_asked(ip).len() == calls_of(calls, ip)
        &&& self.tps_asked(ip).len() == sends_of(calls, ip)
        &&& first_pass(self.rps_asked(ip), limits.rps.1)
        &&& first_pass(self.tps_asked(ip), limits.tps.1)
    }
}

/// It is the first that passed, as many as the burst.
spec fn first_pass(asked: Seq<(nat, bool)>, burst: u32) -> bool {
    forall|i: int| 0 <= i < asked.len() ==> ((#[trigger] asked[i]).1 <==> i < burst)
}

/// One more time at the same instant.
proof fn lemma_one_more_passes(
    before: Seq<(nat, bool)>,
    after: Seq<(nat, bool)>,
    quota: (u32, u32),
    at: nat,
)
    requires
        limiter::asked_once(before, after, quota),
        quota.0 <= limiter::NANOS_PER_SEC,
        all_at(after, at),
        first_pass(before, quota.1),
    ensures
        first_pass(after, quota.1),
        after.last().1 <==> before.len() < quota.1,
{
    assert forall|i: int| 0 <= i < before.len() implies #[trigger] before[i] == after[i] by {
        assert(after.drop_last()[i] == after[i]);
    }
    assert(after[after.len() - 1] == after.last());
    limiter::lemma_passes_at_one_instant(before, quota.1 as nat);
    assert forall|i: int| 0 <= i < after.len() implies ((#[trigger] after[i]).1 <==> i < quota.1) by {
        if i < before.len() {
            assert(before[i] == after[i]);
        }
    }
}

/// What a request leaves of how the limiters of an address were asked before it.
proof fn lemma_asked_before(
    before: RateLimiterMiddleware,
    after: RateLimiterMiddleware,
    c: Call,
    ip: IpAddr,
    at: nat,
)
    requires
        after.asked_by_ip(before, c.ip, c.is_send_tx, c.r),
        after.asked_only_at(ip, at),
    ensures
        before.asked_only_at(ip, at),
{
    net::lemma_ip_key_injective(c.ip, ip);
    if c.ip == ip {
        let rps = before.rps_asked(ip);
        let tps = before.tps_asked(ip);
        assert forall|i: int| 0 <= i < rps.len() implies (#[trigger] rps[i]).0 == at by {
            assert(after.rps_asked(ip).drop_last()[i] == after.rps_asked(ip)[i]);
        }
        assert forall|i: int| 0 <= i < tps.len() implies (#[trigger] tps[i]).0 == at by {
            assert(after.tps_asked(ip)[i] == tps[i]) by {
                if after.tps_asked(ip).len() > tps.len() {
                    assert(after.tps_asked(ip).drop_last()[i] == after.tps_asked(ip)[i]);
                }
            }
        }
    }
}

proof fn lemma_asked_earlier(
    states: Seq<RateLimiterMiddleware>,
    calls: Seq<Call>,
    ip: IpAddr,
    at: nat,
    k: int,
)
    requires
        is_run(states, calls),
        states.last().asked_only_at(ip, at),
        0 <= k <= calls.len(),
    ensures
        states[k].asked_only_at(ip, at),
    decreases calls.len() - k,
{
    if k < calls.len() {
        lemma_asked_earlier(states, calls, ip, at, k + 1);
        lemma_asked_before(states[k], states[k + 1], calls[k], ip, at);
    }
}

/// One more request at the same instant.
proof fn lemma_burst_goes_on(
    before: RateLimiterMiddleware,
    after: RateLimiterMiddleware,
    config: Config,
    ip: IpAddr,
    earlier: Seq<Call>,
    c: Call,
    at: nat,
)
    requires
        after.asked_by_ip(before, c.ip, c.is_send_tx, c.r),
        after.asked_only_at(ip, at),
        before.is_burst(config, ip, earlier),
        limits_for(config, ip).rps.0 <= limiter::NANOS_PER_SEC,
        limits_for(config, ip).tps.0 <= limiter::NANOS_PER_SEC,
    ensures
        after.is_burst(config, ip, earlier.push(c)),
        c.ip == ip ==> c.r == burst_verdict(limits_for(config, ip), earlier, ip, c.is_send_tx),
{
    net::lemma_ip_key_injective(c.ip, ip);
    assert(earlier.push(c).drop_last() =~= earlier);
    let key = net::ip_key(ip);
    let limits = limits_for(config, ip);
    if c.ip == ip {
        let found = choose|l: IpLimiters| #[trigger]
            are_found(before.held_by_ip(), key, limits, l) && after.held_by_ip()[key].answered(
                l,
                c.is_send_tx,
                c.r,
            );
        assert(limiter::asked(found.rps) =~= before.rps_asked(ip));
        assert(limiter::asked(found.tps) =~= before.tps_asked(ip));
        lemma_one_more_passes(before.rps_asked(ip), after.rps_asked(ip), limits.rps, at);
        if after.held_by_ip()[key].asks_tps(c.is_send_tx) {
            lemma_one_more_passes(before.tps_asked(ip), after.tps_asked(ip), limits.tps, at);
        }
    }
}

proof fn lemma_burst(
    states: Seq<RateLimiterMiddleware>,
    calls: Seq<Call>,
    config: Config,
    ip: IpAddr,
    at: nat,
    k: int,
)
    requires
        is_run(states, calls),
        states[0].config == config,
        states[0].unasked(),
        states[0].by_ip() == whitelist_limits(config.whitelist@, config.rate_limits),
        listed_once(config.whitelist@, ip),
        limits_for(config, ip).rps.0 <= limiter::NANOS_PER_SEC,
        limits_for(config, ip).tps.0 <= limiter::NANOS_PER_SEC,
        states.last().asked_only_at(ip, at),
        0 <= k <= calls.len(),
    ensures
        states[k].is_burst(config, ip, calls.take(k)),
    decreases k,
{
    if k == 0 {
        law_limits_follow_config(config, ip);
        let key = net::ip_key(ip);
        let held = states[0].held_by_ip();
        if held.contains_key(key) {
            assert(states[0].by_ip()[key] == held[key].limits());
        }
    } else {
        lemma_burst(states, calls, config, ip, at, k - 1);
        lemma_asked_earlier(states, calls, ip, at, k);
        assert(calls.take(k) =~= calls.take(k - 1).push(calls[k - 1]));
        lemma_burst_goes_on(
            states[k - 1],
            states[k],
            config,
            ip,
            calls.take(k - 1),
            calls[k - 1],
            at,
        );
    }
}

/// Of the requests that an address makes at one instant after the configuration was put in force, as
/// many are within the limit on requests as its burst, which comes on top of its rate, and they are
/// the first; of those that send transactions, as many are within the limit on these as its burst,
/// and they are the first. What other addresses do does not matter.
pub proof fn law_burst_at_one_instant(
    states: Seq<RateLimiterMiddleware>,
    calls: Seq<Call>,
    config: Config,
    ip: IpAddr,
    at: nat,
    i: int,
)
    requires
        is_run(states, calls),
        states[0].config == config,
        states[0].unasked(),
        states[0].by_ip() == whitelist_limits(config.whitelist@, config.rate_limits),
        listed_once(config.whitelist@, ip),
        limits_for(config, ip).rps.0 <= limiter::NANOS_PER_SEC,
        limits_for(config, ip).tps.0 <= limiter::NANOS_PER_SEC,
        states.last().asked_only_at(ip, at),
        0 <= i < calls.len(),
        calls[i].ip == ip,
    ensures
        calls[i].r == burst_verdict(
            limits_for(config, ip),
            calls.take(i),
            ip,
            calls[i].is_send_tx,
        ),
{
    lemma_burst(states, calls, config, ip, at, i);
    lemma_asked_earlier(states, calls, ip, at, i + 1);
    lemma_burst_goes_on(
        states[i],
        states[i + 1],
        config,
        ip,
        calls.take(i),
        calls[i],
        at,
    );
}

} // verus!
