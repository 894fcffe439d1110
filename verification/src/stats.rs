//! Statistics counters of the proxy and the derived figures it reports.

use vstd::prelude::*;

use crate::text::{append_chars, append_decimal, decimal_nat, string_from_chars};

verus! {

/// Statistics counters for UA-Mask. Every counter wraps around at `u64::MAX`,
/// as an atomic `fetch_add`/`fetch_sub` does.
pub struct Stats {
    /// Current active connections
    pub active_connections: u64,
    /// Total HTTP requests processed
    pub http_requests: u64,
    /// Total successful UA modifications
    pub modified_requests: u64,
    /// Cache hits (modify)
    pub cache_hits: u64,
    /// Cache hits (pass-through, no modify)
    pub cache_hit_no_modify: u64,
}

/// `a + b` modulo 2^64.
pub open spec fn wrap_add(a: u64, b: u64) -> u64 {
    ((a as int + b as int) % 0x1_0000_0000_0000_0000) as u64
}

/// `a - b` modulo 2^64.
pub open spec fn wrap_sub(a: u64, b: u64) -> u64 {
    ((a as int - b as int) % 0x1_0000_0000_0000_0000) as u64
}

/// `a - b`, or 0 when `b > a`.
pub open spec fn sat_sub(a: u64, b: u64) -> u64 {
    if a >= b {
        (a - b) as u64
    } else {
        0
    }
}

impl Stats {
    /// Create a new Stats instance with all counters at zero
    pub fn new() -> (s: Self)
        ensures
            s.active_connections == 0,
            s.http_requests == 0,
            s.modified_requests == 0,
            s.cache_hits == 0,
            s.cache_hit_no_modify == 0,
    {
        Stats {
            active_connections: 0,
            http_requests: 0,
            modified_requests: 0,
            cache_hits: 0,
            cache_hit_no_modify: 0,
        }
    }

    /// Add value to active connections counter
    pub fn add_active_connections(&mut self, val: u64)
        ensures
            final(self).active_connections == wrap_add(old(self).active_connections, val),
            final(self).http_requests == old(self).http_requests,
            final(self).modified_requests == old(self).modified_requests,
            final(self).cache_hits == old(self).cache_hits,
            final(self).cache_hit_no_modify == old(self).cache_hit_no_modify,
    {
        self.active_connections = self.active_connections.wrapping_add(val);
    }

    /// Subtract value from active connections counter
    pub fn sub_active_connections(&mut self, val: u64)
        ensures
            final(self).active_connections == wrap_sub(old(self).active_connections, val),
            final(self).http_requests == old(self).http_requests,
            final(self).modified_requests == old(self).modified_requests,
            final(self).cache_hits == old(self).cache_hits,
            final(self).cache_hit_no_modify == old(self).cache_hit_no_modify,
    {
        self.active_connections = self.active_connections.wrapping_sub(val);
    }

    /// Increment HTTP requests counter
    pub fn inc_http_requests(&mut self)
        ensures
            final(self).http_requests == wrap_add(old(self).http_requests, 1),
            final(self).active_connections == old(self).active_connections,
            final(self).modified_requests == old(self).modified_requests,
            final(self).cache_hits == old(self).cache_hits,
            final(self).cache_hit_no_modify == old(self).cache_hit_no_modify,
    {
        self.http_requests = self.http_requests.wrapping_add(1);
    }

    /// Increment modified requests counter
    pub fn inc_modified_requests(&mut self)
        ensures
            final(self).modified_requests == wrap_add(old(self).modified_requests, 1),
            final(self).active_connections == old(self).active_connections,
            final(self).http_requests == old(self).http_requests,
            final(self).cache_hits == old(self).cache_hits,
            final(self).cache_hit_no_modify == old(self).cache_hit_no_modify,
    {
        self.modified_requests = self.modified_requests.wrapping_add(1);
    }

    /// Increment cache hits (modify) counter
    pub fn inc_cache_hits(&mut self)
        ensures
            final(self).cache_hits == wrap_add(old(self).cache_hits, 1),
            final(self).active_connections == old(self).active_connections,
            final(self).http_requests == old(self).http_requests,
            final(self).modified_requests == old(self).modified_requests,
            final(self).cache_hit_no_modify == old(self).cache_hit_no_modify,
    {
        self.cache_hits = self.cache_hits.wrapping_add(1);
    }

    /// Increment cache hits (no modify) counter
    pub fn inc_cache_hit_no_modify(&mut self)
        ensures
            final(self).cache_hit_no_modify == wrap_add(old(self).cache_hit_no_modify, 1),
            final(self).active_connections == old(self).active_connections,
            final(self).http_requests == old(self).http_requests,
            final(self).modified_requests == old(self).modified_requests,
            final(self).cache_hits == old(self).cache_hits,
    {
        self.cache_hit_no_modify = self.cache_hit_no_modify.wrapping_add(1);
    }

    /// The integer figures of the periodic statistics report.
    pub fn report(&self) -> (r: StatsReport)
        ensures
            r.current_connections == self.active_connections,
            r.total_requests == self.http_requests,
            r.successful_modifications == self.modified_requests,
            r.cache_hit_modify == self.cache_hits,
            r.cache_hit_pass == self.cache_hit_no_modify,
            r.total_cache_hits == wrap_add(self.cache_hits, self.cache_hit_no_modify),
            r.direct_passthrough == sat_sub(self.http_requests, self.modified_requests),
            r.rule_processing == sat_sub(self.http_requests, r.total_cache_hits),
    {
        let total_cache_hits: u64 = self.cache_hits.wrapping_add(self.cache_hit_no_modify);
        StatsReport {
            current_connections: self.active_connections,
            total_requests: self.http_requests,
            successful_modifications: self.modified_requests,
            direct_passthrough: self.http_requests.saturating_sub(self.modified_requests),
            rule_processing: self.http_requests.saturating_sub(total_cache_hits),
            cache_hit_modify: self.cache_hits,
            cache_hit_pass: self.cache_hit_no_modify,
            total_cache_hits,
        }
    }
}

/// The integer figures of the statistics report (the rates, which are
/// fractional, are computed where the report is written).
pub struct StatsReport {
    pub current_connections: u64,
    pub total_requests: u64,
    pub successful_modifications: u64,
    pub direct_passthrough: u64,
    pub rule_processing: u64,
    pub cache_hit_modify: u64,
    pub cache_hit_pass: u64,
    pub total_cache_hits: u64,
}

/// One `name:value` line of the statistics file.
pub open spec fn stat_line(name: Seq<char>, value: Seq<char>) -> Seq<char> {
    name + seq![':'] + value + seq!['\n']
}

/// The text of the statistics file for `r`, with the request rate and the
/// cache ratio already written out (they are fractional).
pub open spec fn report_text(r: StatsReport, rps: Seq<char>, ratio: Seq<char>) -> Seq<char> {
    stat_line("current_connections"@, decimal_nat(r.current_connections as nat))
        + stat_line("total_requests"@, decimal_nat(r.total_requests as nat))
        + stat_line("rps"@, rps)
        + stat_line("successful_modifications"@, decimal_nat(r.successful_modifications as nat))
        + stat_line("direct_passthrough"@, decimal_nat(r.direct_passthrough as nat))
        + stat_line("rule_processing"@, decimal_nat(r.rule_processing as nat))
        + stat_line("cache_hit_modify"@, decimal_nat(r.cache_hit_modify as nat))
        + stat_line("cache_hit_pass"@, decimal_nat(r.cache_hit_pass as nat))
        + stat_line("total_cache_ratio"@, ratio)
}

fn push_line(v: &mut Vec<char>, name: &str, value: &str)
    ensures
        final(v)@ == old(v)@ + stat_line(name@, value@),
{
    append_chars(v, name);
    v.push(':');
    append_chars(v, value);
    v.push('\n');
    assert(final(v)@ =~= old(v)@ + stat_line(name@, value@));
}

fn push_number_line(v: &mut Vec<char>, name: &str, value: u64)
    ensures
        final(v)@ == old(v)@ + stat_line(name@, decimal_nat(value as nat)),
{
    append_chars(v, name);
    v.push(':');
    append_decimal(value, v);
    v.push('\n');
    assert(final(v)@ =~= old(v)@ + stat_line(name@, decimal_nat(value as nat)));
}

impl StatsReport {
    /// The text of the statistics file, one `name:value` line per figure,
    /// with `rps` and `total_cache_ratio` written as given.
    pub fn to_text(&self, rps: &str, total_cache_ratio: &str) -> (s: String)
        ensures
            s@ == report_text(*self, rps@, total_cache_ratio@),
    {
        let mut v: Vec<char> = Vec::new();
        push_number_line(&mut v, "current_connections", self.current_connections);
        push_number_line(&mut v, "total_requests", self.total_requests);
        push_line(&mut v, "rps", rps);
        push_number_line(&mut v, "successful_modifications", self.successful_modifications);
        push_number_line(&mut v, "direct_passthrough", self.direct_passthrough);
        push_number_line(&mut v, "rule_processing", self.rule_processing);
        push_number_line(&mut v, "cache_hit_modify", self.cache_hit_modify);
        push_number_line(&mut v, "cache_hit_pass", self.cache_hit_pass);
        push_line(&mut v, "total_cache_ratio", total_cache_ratio);
        assert(v@ =~= report_text(*self, rps@, total_cache_ratio@));
        string_from_chars(&v)
    }
}

impl Default for Stats {
    fn default() -> (s: Self)
        ensures
            s.active_connections == 0,
            s.http_requests == 0,
            s.modified_requests == 0,
            s.cache_hits == 0,
            s.cache_hit_no_modify == 0,
    {
        Self::new()
    }
}

} // verus!
