//! What all proxies share: who may pass, how often, and what is counted.

use crate::config::{Config, WhitelistEntry};
use crate::middleware::api_keys;
use crate::middleware::api_keys::ApiKeyStore;
use crate::middleware::ip_whitelist::IpWhitelist;
use crate::middleware::rate_limiter;
use crate::middleware::rate_limiter::RateLimiterMiddleware;
use crate::net::{IpAddr, IpKey};
use crate::stats::{IpStats, Stats, SupervisorCounters};
use vstd::prelude::*;

verus! {

/// Who may pass, how often, and what is counted.
pub struct Gate {
    pub whitelist: IpWhitelist,
    pub api_keys: ApiKeyStore,
    pub rate_limiter: RateLimiterMiddleware,
    pub stats: Stats,
}

/// The key that a client sent, as text.
pub open spec fn key_view(key: Option<&str>) -> Option<Seq<char>> {
    match key {
        Some(k) => Some(k@),
        None => None,
    }
}

/// A client may pass exactly where its address is on the whitelist or it sent a key that is in use; a key
/// that is not in use, or none, takes nothing away.
pub proof fn law_who_may_pass(g: Gate, ip: IpAddr, key: Seq<char>)
    ensures
        g.lets_pass(ip, None) <==> g.whitelist@.contains(ip),
        g.lets_pass(ip, Some(key)) <==> g.whitelist@.contains(ip) || g.api_keys@.contains_key(key),
        g.holds_key(Some(key)) <==> g.api_keys@.contains_key(key),
        !g.holds_key(None),
{
}

/// Where a configuration is in force, an address may pass exactly where an entry of its whitelist is for
/// it, and a key exactly where an entry names it that is not revoked.
pub proof fn law_configuration_says_who_may_pass(
    g: Gate,
    config: Config,
    ip: IpAddr,
    key: Seq<char>,
)
    requires
        g.follows(config),
    ensures
        g.whitelist@.contains(ip) <==> exists|i: int|
            0 <= i < config.whitelist@.len() && (#[trigger] config.whitelist@[i]).ip == ip,
        g.holds_key(Some(key)) <==> exists|i: int|
            0 <= i < config.api_keys@.len() && (#[trigger] config.api_keys@[i]).key@ == key
                && !config.api_keys@[i].revoked,
        g.rate_limiter.unasked(),
{
    let ips = config.whitelist@.map_values(|w: WhitelistEntry| w.ip);
    if ips.contains(ip) {
        assert(config.whitelist@[ips.index_of(ip)].ip == ip);
    }
    if exists|i: int| 0 <= i < config.whitelist@.len() && (#[trigger] config.whitelist@[i]).ip == ip {
        let i = choose|i: int|
            0 <= i < config.whitelist@.len() && (#[trigger] config.whitelist@[i]).ip == ip;
        assert(ips[i] == ip);
    }
    api_keys::law_keys_come_from_entries(config.api_keys@, key);
}

/// Where what is in force agrees with the configuration, as it does after every change, the same clients
/// may pass as after a restart.
pub proof fn law_agreeing_gate_lets_the_same_pass(a: Gate, b: Gate, ip: IpAddr, key: Option<Seq<char>>)
    requires
        a.agrees(),
        b.follows(a.rate_limiter.config),
    ensures
        a.lets_pass(ip, key) == b.lets_pass(ip, key),
{
}

impl Gate {
    /// Its parts are in order.
    pub open spec fn wf(self) -> bool {
        self.api_keys.wf() && self.rate_limiter.wf() && self.stats.wf()
    }

    /// The client sent a key that is in use.
    pub open spec fn holds_key(self, key: Option<Seq<char>>) -> bool {
        key is Some && self.api_keys@.contains_key(key->0)
    }

    /// The client may pass: its address is on the whitelist, or it sent a key that is in use.
    pub open spec fn lets_pass(self, ip: IpAddr, key: Option<Seq<char>>) -> bool {
        self.whitelist@.contains(ip) || self.holds_key(key)
    }

    /// Nothing but what is counted differs.
    pub open spec fn same_but_stats(self, other: Gate) -> bool {
        &&& self.whitelist == other.whitelist
        &&& self.api_keys == other.api_keys
        &&& self.rate_limiter == other.rate_limiter
    }

    /// Nothing but the limiters differs, and they answer to the same configuration.
    pub open spec fn same_but_limiters(self, other: Gate) -> bool {
        &&& self.whitelist == other.whitelist
        &&& self.api_keys == other.api_keys
        &&& self.stats == other.stats
        &&& self.rate_limiter.config == other.rate_limiter.config
    }

    /// All parts answer to the configuration as it stands at the start.
    pub open spec fn follows(self, config: Config) -> bool {
        &&& self.whitelist@ == config.whitelist@.map_values(|w: WhitelistEntry| w.ip).to_set()
        &&& self.api_keys@ == api_keys::keys_of(config.api_keys@)
        &&& self.rate_limiter.by_ip() == rate_limiter::whitelist_limits(
            config.whitelist@,
            config.rate_limits,
        )
        &&& self.rate_limiter.by_key() == rate_limiter::keys_limits(
            config.api_keys@,
            config.rate_limits,
        )
        &&& self.rate_limiter.unasked()
    }

    /// The whitelist and the keys in use are those that the configuration gives, so that a restart
    /// from it would let the same clients pass.
    pub open spec fn agrees(self) -> bool {
        let config = self.rate_limiter.config;
        &&& self.whitelist@ == config.whitelist@.map_values(|w: WhitelistEntry| w.ip).to_set()
        &&& self.api_keys@ == api_keys::keys_of(config.api_keys@)
    }

    /// Sets all parts up; nothing has been counted.
    pub fn new(config: Config) -> (g: Gate)
        requires
            config.limits_in_range(),
        ensures
            g.wf(),
            g.follows(config),
            g.agrees(),
            g.stats.balanced(),
            g.rate_limiter.config == config,
            g.stats.by_ip() == Map::<IpKey, IpStats>::empty(),
            g.stats.global_total_requests == 0,
            g.stats.global_rps_current == 0,
            g.stats.global_tps_current == 0,
            g.stats.supervisor == (SupervisorCounters {
                active: 0,
                drops_total: 0,
                forwarder_aborted_total: 0,
            }),
    {
        let whitelist = IpWhitelist::new(config.whitelist_set());
        let api_keys = ApiKeyStore::new(&config.api_keys);
        let rate_limiter = RateLimiterMiddleware::new(config);
        Gate { whitelist, api_keys, rate_limiter, stats: Stats::new() }
    }

    /// Puts another configuration in force while the proxy runs; what has been counted stays.
    pub fn apply_config(&mut self, config: Config)
        requires
            old(self).wf(),
            config.limits_in_range(),
        ensures
            final(self).wf(),
            final(self).follows(config),
            final(self).agrees(),
            final(self).rate_limiter.config == config,
            final(self).stats == old(self).stats,
    {
        self.whitelist.update(config.whitelist_set());
        self.api_keys.reload(&config.api_keys);
        self.rate_limiter.reload(config);
    }

    /// Whether the client sent a key that is in use.
    pub fn key_in_use(&self, key: Option<&str>) -> (r: bool)
        requires
            self.wf(),
        ensures
            r == self.holds_key(key_view(key)),
    {
        match key {
            Some(k) => self.api_keys.validate(k).is_some(),
            None => false,
        }
    }
}

} // verus!
