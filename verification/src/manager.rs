//! Offload decisions for flows that carry no HTTP: a per-flow profile that
//! non-HTTP events score up and HTTP events veto, the firewall additions it
//! decides on, the batching of those additions and the firewall commands that
//! carry them out.

use vstd::prelude::*;

use crate::config::Config;
use crate::matcher::{regex_compiles, regex_matches, ua_regex_is_match, UaRegex};
use crate::text::{
    append_chars, append_decimal, concat_str, decimal_int, decimal_nat, i64_to_decimal,
    string_from_chars,
};

verus! {

/// Port profile for tracking non-HTTP traffic of one flow. Times are
/// milliseconds on a monotonic clock.
#[derive(Clone, Copy, PartialEq, Eq, Debug)]
pub struct PortProfile {
    /// Non-HTTP event score
    pub non_http_score: u32,
    /// HTTP lock expiration time (cooldown period)
    pub http_lock_expires: Option<u64>,
    /// Last event time
    pub last_event: u64,
    /// Whether a decision timer is running
    pub decision_pending: bool,
}

/// The key of a flow: `ip:port`.
pub open spec fn flow_key_of(ip: Seq<char>, port: u16) -> Seq<char> {
    ip + seq![':'] + decimal_nat(port as nat)
}

/// The key of a flow, `ip:port`.
pub fn flow_key(ip: &str, port: u16) -> (k: String)
    ensures
        k@ == flow_key_of(ip@, port),
{
    let mut v: Vec<char> = Vec::new();
    append_chars(&mut v, ip);
    v.push(':');
    append_decimal(port as u64, &mut v);
    assert(v@ =~= flow_key_of(ip@, port));
    string_from_chars(&v)
}

/// The profile a flow gets when it is first seen.
pub open spec fn fresh_profile(now: u64) -> PortProfile {
    PortProfile { non_http_score: 0, http_lock_expires: None, last_event: now, decision_pending: false }
}

/// The flow is in its HTTP cooldown at `now`.
pub open spec fn in_cooldown(p: PortProfile, now: u64) -> bool {
    p.http_lock_expires matches Some(expires) && now < expires
}

/// The profile after an HTTP event at `now`: outside the cooldown the score is
/// reset, a new cooldown of `cooldown` starts and a pending decision is
/// cancelled; inside it nothing changes.
pub open spec fn after_http_event(p: PortProfile, now: u64, cooldown: u64) -> PortProfile {
    if in_cooldown(p, now) {
        p
    } else {
        PortProfile {
            non_http_score: 0,
            http_lock_expires: Some((now + cooldown) as u64),
            last_event: now,
            decision_pending: false,
        }
    }
}

/// The score after one more non-HTTP event (wrapping at `u32::MAX`).
pub open spec fn next_score(p: PortProfile) -> u32 {
    ((p.non_http_score + 1) % 0x1_0000_0000) as u32
}

/// The profile after a non-HTTP event at `now`: outside the cooldown the score
/// goes up by one and, once it reaches the threshold, a decision becomes
/// pending; inside the cooldown nothing changes.
pub open spec fn after_non_http_event(p: PortProfile, now: u64, threshold: u32) -> PortProfile {
    if in_cooldown(p, now) {
        p
    } else {
        PortProfile {
            non_http_score: next_score(p),
            http_lock_expires: p.http_lock_expires,
            last_event: now,
            decision_pending: p.decision_pending || next_score(p) >= threshold,
        }
    }
}

/// A non-HTTP event at `now` starts a decision timer: it counts, reaches the
/// threshold, and no decision was pending.
pub open spec fn starts_decision(p: PortProfile, now: u64, threshold: u32) -> bool {
    !in_cooldown(p, now) && next_score(p) >= threshold && !p.decision_pending
}

/// An HTTP event vetoes offload for its cooldown: once an HTTP event at `t`,
/// outside the flow's cooldown, has reset the flow, then at any time before
/// `t + cooldown` a non-HTTP event leaves the profile as it is and starts no
/// decision, another HTTP event leaves it as it is, and a pending decision does
/// not add the flow.
pub proof fn lemma_http_veto(p: PortProfile, t: u64, cooldown: u64, now: u64, threshold: u32)
    requires
        t + cooldown <= u64::MAX,
        !in_cooldown(p, t),
        now < t + cooldown,
    ensures
        after_http_event(p, t, cooldown).non_http_score == 0,
        !after_http_event(p, t, cooldown).decision_pending,
        after_non_http_event(after_http_event(p, t, cooldown), now, threshold) == after_http_event(
            p,
            t,
            cooldown,
        ),
        !starts_decision(after_http_event(p, t, cooldown), now, threshold),
        after_http_event(after_http_event(p, t, cooldown), now, cooldown) == after_http_event(
            p,
            t,
            cooldown,
        ),
        !decision_holds(after_http_event(p, t, cooldown), now, threshold),
{
}

/// The position of the flow `key` in the table, if it is there.
pub open spec fn find_flow(t: Seq<(Seq<char>, PortProfile)>, key: Seq<char>) -> Option<int>
    decreases t.len(),
{
    if t.len() == 0 {
        None
    } else if t[0].0 == key {
        Some(0)
    } else {
        match find_flow(t.drop_first(), key) {
            Some(i) => Some(i + 1),
            None => None,
        }
    }
}

/// The profile of the flow `key`, if it has one.
pub open spec fn profile_of(t: Seq<(Seq<char>, PortProfile)>, key: Seq<char>) -> Option<PortProfile> {
    match find_flow(t, key) {
        Some(i) => Some(t[i].1),
        None => None,
    }
}

/// The profile of the flow `key`, or a fresh one.
pub open spec fn current_profile(t: Seq<(Seq<char>, PortProfile)>, key: Seq<char>, now: u64) -> PortProfile {
    match profile_of(t, key) {
        Some(p) => p,
        None => fresh_profile(now),
    }
}

/// The table with `p` as the profile of `key`.
pub open spec fn with_profile(t: Seq<(Seq<char>, PortProfile)>, key: Seq<char>, p: PortProfile) -> Seq<
    (Seq<char>, PortProfile),
> {
    match find_flow(t, key) {
        Some(i) => t.update(i, (key, p)),
        None => t.push((key, p)),
    }
}

/// The table without the flow `key`.
pub open spec fn without_flow(t: Seq<(Seq<char>, PortProfile)>, key: Seq<char>) -> Seq<
    (Seq<char>, PortProfile),
> {
    match find_flow(t, key) {
        Some(i) => t.remove(i),
        None => t,
    }
}

/// No flow appears twice.
pub open spec fn distinct_flows(t: Seq<(Seq<char>, PortProfile)>) -> bool {
    forall|i: int, j: int| 0 <= i < t.len() && 0 <= j < t.len() && i != j ==> t[i].0 != t[j].0
}

/// What `find_flow` finds.
pub proof fn lemma_find_flow(t: Seq<(Seq<char>, PortProfile)>, key: Seq<char>)
    ensures
        match find_flow(t, key) {
            Some(i) => 0 <= i < t.len() && t[i].0 == key && forall|j: int| 0 <= j < i ==> t[j].0 != key,
            None => forall|j: int| 0 <= j < t.len() ==> t[j].0 != key,
        },
    decreases t.len(),
{
    if t.len() > 0 {
        lemma_find_flow(t.drop_first(), key);
        assert forall|j: int| 1 <= j < t.len() implies t[j] == t.drop_first()[j - 1] by {}
    }
}

/// In a table without repeated flows, a flow is found where it is.
pub proof fn lemma_find_flow_at(t: Seq<(Seq<char>, PortProfile)>, i: int)
    requires
        0 <= i < t.len(),
        distinct_flows(t),
    ensures
        find_flow(t, t[i].0) == Some(i),
{
    lemma_find_flow(t, t[i].0);
}

/// Setting the profile of one flow leaves every other flow's profile as it
/// was, gives that flow the profile set, and repeats no flow.
pub proof fn lemma_with_profile(
    t: Seq<(Seq<char>, PortProfile)>,
    key: Seq<char>,
    p: PortProfile,
    other: Seq<char>,
)
    requires
        distinct_flows(t),
    ensures
        distinct_flows(with_profile(t, key, p)),
        profile_of(with_profile(t, key, p), key) == Some(p),
        other != key ==> profile_of(with_profile(t, key, p), other) == profile_of(t, other),
{
    lemma_find_flow(t, key);
    lemma_find_flow(t, other);
    let n = with_profile(t, key, p);
    assert forall|a: int| 0 <= a < n.len() implies n[a].0 == (if a < t.len() { t[a].0 } else { key }) by {}
    assert(distinct_flows(n));
    match find_flow(t, key) {
        Some(i) => {
            lemma_find_flow_at(n, i);
        },
        None => {
            lemma_find_flow_at(n, t.len() as int);
        },
    }
    if other != key {
        lemma_find_flow(n, other);
        match find_flow(t, other) {
            Some(j) => {
                lemma_find_flow_at(n, j);
            },
            None => {},
        }
    }
}

/// Removing one flow leaves every other flow's profile as it was, leaves that
/// flow without one, and repeats no flow.
pub proof fn lemma_without_flow(t: Seq<(Seq<char>, PortProfile)>, key: Seq<char>, other: Seq<char>)
    requires
        distinct_flows(t),
    ensures
        distinct_flows(without_flow(t, key)),
        profile_of(without_flow(t, key), key) is None,
        other != key ==> profile_of(without_flow(t, key), other) == profile_of(t, other),
{
    lemma_find_flow(t, key);
    lemma_find_flow(t, other);
    let n = without_flow(t, key);
    match find_flow(t, key) {
        Some(i) => {
            assert forall|a: int| 0 <= a < n.len() implies n[a] == t[if a < i { a } else { a + 1 }] by {}
            assert(distinct_flows(n));
            lemma_find_flow(n, key);
            lemma_find_flow(n, other);
            if other != key {
                match find_flow(t, other) {
                    Some(j) => {
                        let q: int = if j < i { j } else { j - 1 };
                        assert(n[q] == t[j]);
                        lemma_find_flow_at(n, q);
                    },
                    None => {
                        if let Some(q) = find_flow(n, other) {
                            assert(n[q] == t[if q < i { q } else { q + 1 }]);
                        }
                    },
                }
            } else {
                if let Some(q) = find_flow(n, key) {
                    assert(n[q] == t[if q < i { q } else { q + 1 }]);
                }
            }
        },
        None => {},
    }
}

} // verus!

verus! {

/// The outcome of `finalize_decision` for a flow whose profile is `p`: the
/// flow is added when its score still reaches the threshold and it is out of
/// its cooldown; otherwise the pending decision is dropped.
pub open spec fn decision_holds(p: PortProfile, now: u64, threshold: u32) -> bool {
    p.non_http_score >= threshold && !in_cooldown(p, now)
}

/// A profile survives a cleanup at `now`: a decision is pending, it is in its
/// cooldown, or its last event is no more than `max_idle` ago.
pub open spec fn keeps_profile(p: PortProfile, now: u64, max_idle: u64) -> bool {
    ||| p.decision_pending
    ||| in_cooldown(p, now)
    ||| !(if now >= p.last_event { now - p.last_event } else { 0 } > max_idle)
}

/// The flows of `t` that survive a cleanup at `now`, in order.
pub open spec fn kept_flows(t: Seq<(Seq<char>, PortProfile)>, now: u64, max_idle: u64) -> Seq<
    (Seq<char>, PortProfile),
>
    decreases t.len(),
{
    if t.len() == 0 {
        t
    } else {
        let rest = kept_flows(t.drop_last(), now, max_idle);
        if keeps_profile(t.last().1, now, max_idle) {
            rest.push(t.last())
        } else {
            rest
        }
    }
}

/// The flows that survive a cleanup come from the table, repeat no flow when
/// it repeats none, and keep their profiles; a surviving profile is still
/// there, a dropped one is gone.
pub proof fn lemma_kept_flows(t: Seq<(Seq<char>, PortProfile)>, now: u64, max_idle: u64)
    requires
        distinct_flows(t),
    ensures
        distinct_flows(kept_flows(t, now, max_idle)),
        forall|a: int| 0 <= a < kept_flows(t, now, max_idle).len() ==> exists|b: int|
            0 <= b < t.len() && #[trigger] kept_flows(t, now, max_idle)[a] == t[b],
        forall|key: Seq<char>| #[trigger] profile_of(kept_flows(t, now, max_idle), key) == match profile_of(t, key) {
            Some(p) => if keeps_profile(p, now, max_idle) { Some(p) } else { None },
            None => None,
        },
    decreases t.len(),
{
    if t.len() > 0 {
        let s = t.drop_last();
        assert(distinct_flows(s));
        lemma_kept_flows(s, now, max_idle);
        let r = kept_flows(s, now, max_idle);
        let k = kept_flows(t, now, max_idle);
        let last = t.last();
        assert forall|b: int| 0 <= b < s.len() implies s[b].0 != last.0 by {
            assert(t[b] == s[b]);
        }
        assert forall|a: int| 0 <= a < r.len() implies r[a].0 != last.0 by {
            let b: int = choose|b: int| 0 <= b < s.len() && r[a] == s[b];
        }
        assert forall|a: int| 0 <= a < k.len() implies exists|b: int|
            0 <= b < t.len() && #[trigger] k[a] == t[b] by {
            if a < r.len() {
                let b: int = choose|b: int| 0 <= b < s.len() && r[a] == s[b];
                assert(k[a] == t[b]);
            } else {
                assert(k[a] == t[t.len() - 1]);
            }
        }
        assert(distinct_flows(k));
        assert forall|key: Seq<char>| #[trigger] profile_of(k, key) == match profile_of(t, key) {
            Some(p) => if keeps_profile(p, now, max_idle) { Some(p) } else { None },
            None => None,
        } by {
            lemma_find_flow(t, key);
            lemma_find_flow(s, key);
            lemma_find_flow(k, key);
            lemma_find_flow(r, key);
            assert(profile_of(r, key) == match profile_of(s, key) {
                Some(p) => if keeps_profile(p, now, max_idle) { Some(p) } else { None },
                None => None,
            });
            if key == last.0 {
                assert(find_flow(s, key) is None);
                assert(find_flow(t, key) == Some(t.len() - 1)) by {
                    lemma_find_flow_at(t, t.len() - 1);
                }
                if keeps_profile(last.1, now, max_idle) {
                    lemma_find_flow_at(k, r.len() as int);
                } else {
                    assert(find_flow(r, key) is None);
                }
            } else {
                match find_flow(t, key) {
                    Some(i) => {
                        assert(i < s.len());
                        lemma_find_flow_at(s, i);
                    },
                    None => {},
                }
                match find_flow(r, key) {
                    Some(q) => {
                        lemma_find_flow_at(k, q);
                    },
                    None => {
                        if let Some(q) = find_flow(k, key) {
                            assert(q < r.len());
                        }
                    },
                }
            }
        }
    }
}

/// The profiles of the flows seen, keyed by `ip:port`.
pub struct ProfileTable {
    entries: Vec<(String, PortProfile)>,
}

impl View for ProfileTable {
    type V = Seq<(Seq<char>, PortProfile)>;

    /// The flows and their profiles, in the order they were first seen.
    closed spec fn view(&self) -> Seq<(Seq<char>, PortProfile)> {
        self.entries@.map_values(|e: (String, PortProfile)| (e.0@, e.1))
    }
}

impl ProfileTable {
    /// No flow appears twice.
    pub open spec fn wf(&self) -> bool {
        distinct_flows(self@)
    }

    /// An empty table.
    pub fn new() -> (t: Self)
        ensures
            t.wf(),
            t@ == Seq::<(Seq<char>, PortProfile)>::empty(),
    {
        let t = ProfileTable { entries: Vec::new() };
        assert(t@ =~= Seq::<(Seq<char>, PortProfile)>::empty());
        t
    }

    fn find(&self, key: &String) -> (r: Option<usize>)
        ensures
            match r {
                Some(i) => i < self@.len() && find_flow(self@, key@) == Some(i as int),
                None => find_flow(self@, key@) is None,
            },
    {
        proof {
            lemma_find_flow(self@, key@);
        }
        let mut i: usize = 0;
        while i < self.entries.len()
            invariant
                i <= self@.len(),
                self@.len() == self.entries@.len(),
                forall|j: int| 0 <= j < i ==> self@[j].0 != key@,
                match find_flow(self@, key@) {
                    Some(p) => 0 <= p < self@.len() && self@[p].0 == key@ && forall|j: int|
                        0 <= j < p ==> self@[j].0 != key@,
                    None => forall|j: int| 0 <= j < self@.len() ==> self@[j].0 != key@,
                },
            decreases self@.len() - i,
        {
            assert(self@[i as int].0 == self.entries@[i as int].0@);
            if self.entries[i].0 == *key {
                return Some(i);
            }
            i = i + 1;
        }
        None
    }

    /// The profile of the flow `ip:port`, if it has one.
    pub fn get(&self, ip: &str, port: u16) -> (r: Option<PortProfile>)
        ensures
            r == profile_of(self@, flow_key_of(ip@, port)),
    {
        let key = flow_key(ip, port);
        match self.find(&key) {
            Some(i) => Some(self.entries[i].1),
            None => None,
        }
    }

    fn set(&mut self, key: String, p: PortProfile)
        requires
            old(self).wf(),
        ensures
            final(self).wf(),
            final(self)@ == with_profile(old(self)@, key@, p),
    {
        proof {
            lemma_with_profile(self@, key@, p, key@);
        }
        match self.find(&key) {
            Some(i) => {
                let ghost k = key@;
                self.entries.set(i, (key, p));
                assert(self@ =~= with_profile(old(self)@, k, p));
            },
            None => {
                let ghost k = key@;
                self.entries.push((key, p));
                assert(self@ =~= with_profile(old(self)@, k, p));
            },
        }
    }

    /// Handle HTTP event (one-vote veto): outside its cooldown, the flow's score
    /// is reset, a cooldown starts and a pending decision is cancelled. Returns
    /// whether a pending decision was cancelled.
    pub fn handle_http_event(&mut self, cfg: &Config, ip: &str, port: u16, now: u64) -> (cancelled: bool)
        requires
            old(self).wf(),
            now + cfg.firewall_http_cooldown_period <= u64::MAX,
        ensures
            final(self).wf(),
            ({
                let key = flow_key_of(ip@, port);
                let cur = current_profile(old(self)@, key, now);
                &&& final(self)@ == with_profile(
                    old(self)@,
                    key,
                    after_http_event(cur, now, cfg.firewall_http_cooldown_period),
                )
                &&& cancelled == (!in_cooldown(cur, now) && cur.decision_pending)
            }),
    {
        let key = flow_key(ip, port);
        let cur = match self.find(&key) {
            Some(i) => self.entries[i].1,
            None => PortProfile {
                non_http_score: 0,
                http_lock_expires: None,
                last_event: now,
                decision_pending: false,
            },
        };
        let in_cooldown = match cur.http_lock_expires {
            Some(expires) => now < expires,
            None => false,
        };
        if in_cooldown {
            self.set(key, cur);
            return false;
        }
        let next = PortProfile {
            non_http_score: 0,
            http_lock_expires: Some(now + cfg.firewall_http_cooldown_period),
            last_event: now,
            decision_pending: false,
        };
        self.set(key, next);
        cur.decision_pending
    }

    /// Handle non-HTTP event (accumulate score): outside its cooldown, the
    /// flow's score goes up by one. Returns whether a decision timer is to be
    /// started, which happens when the score reaches the threshold and no
    /// decision is pending yet.
    pub fn handle_non_http_event(&mut self, cfg: &Config, ip: &str, port: u16, now: u64) -> (start_timer: bool)
        requires
            old(self).wf(),
        ensures
            final(self).wf(),
            ({
                let key = flow_key_of(ip@, port);
                let cur = current_profile(old(self)@, key, now);
                let threshold: u32 = cfg.firewall_nonhttp_threshold as u32;
                &&& final(self)@ == with_profile(old(self)@, key, after_non_http_event(cur, now, threshold))
                &&& start_timer == starts_decision(cur, now, threshold)
            }),
    {
        let key = flow_key(ip, port);
        let cur = match self.find(&key) {
            Some(i) => self.entries[i].1,
            None => PortProfile {
                non_http_score: 0,
                http_lock_expires: None,
                last_event: now,
                decision_pending: false,
            },
        };
        let in_cooldown = match cur.http_lock_expires {
            Some(expires) => now < expires,
            None => false,
        };
        if in_cooldown {
            self.set(key, cur);
            return false;
        }
        let threshold: u32 = cfg.firewall_nonhttp_threshold as u32;
        let score: u32 = cur.non_http_score.wrapping_add(1);
        let start = score >= threshold && !cur.decision_pending;
        let next = PortProfile {
            non_http_score: score,
            http_lock_expires: cur.http_lock_expires,
            last_event: now,
            decision_pending: cur.decision_pending || score >= threshold,
        };
        self.set(key, next);
        start
    }

    /// Finalize decision after delay: when the flow still scores at least the
    /// threshold and is out of its cooldown, its profile is dropped and the
    /// firewall addition for it is returned; otherwise its pending decision is
    /// cleared.
    pub fn finalize_decision(&mut self, cfg: &Config, ip: &str, port: u16, now: u64) -> (r: Option<FirewallAddItem>)
        requires
            old(self).wf(),
        ensures
            final(self).wf(),
            ({
                let key = flow_key_of(ip@, port);
                let threshold: u32 = cfg.firewall_nonhttp_threshold as u32;
                match profile_of(old(self)@, key) {
                    None => r is None && final(self)@ == old(self)@,
                    Some(p) => if decision_holds(p, now, threshold) {
                        &&& final(self)@ == without_flow(old(self)@, key)
                        &&& r matches Some(item) && item.ip@ == ip@ && item.port == port
                            && item.set_name@ == cfg.firewall_ipset_name@
                            && item.fw_type@ == cfg.firewall_type@
                            && item.timeout == cfg.firewall_timeout as u32
                    } else {
                        &&& r is None
                        &&& final(self)@ == with_profile(
                            old(self)@,
                            key,
                            PortProfile { decision_pending: false, ..p },
                        )
                    },
                }
            }),
    {
        let key = flow_key(ip, port);
        let i: usize = match self.find(&key) {
            Some(i) => i,
            None => {
                return None;
            },
        };
        let p = self.entries[i].1;
        let threshold: u32 = cfg.firewall_nonhttp_threshold as u32;
        let in_cooldown = match p.http_lock_expires {
            Some(expires) => now < expires,
            None => false,
        };
        if p.non_http_score < threshold || in_cooldown {
            self.set(key, PortProfile { decision_pending: false, ..p });
            return None;
        }
        let item = FirewallAddItem {
            ip: ip.to_owned(),
            port,
            set_name: cfg.firewall_ipset_name.clone(),
            fw_type: cfg.firewall_type.clone(),
            timeout: cfg.firewall_timeout as u32,
        };
        proof {
            lemma_without_flow(self@, key@, key@);
        }
        let ghost before = self@;
        self.entries.remove(i);
        assert(self@ =~= without_flow(before, key@));
        Some(item)
    }

    /// Cleanup stale profiles: drops every profile without a pending decision,
    /// out of its cooldown, whose last event is more than `max_idle` ago.
    /// Returns how many were dropped.
    pub fn cleanup_profiles(&mut self, now: u64, max_idle: u64) -> (cleaned: usize)
        requires
            old(self).wf(),
        ensures
            final(self).wf(),
            final(self)@ == kept_flows(old(self)@, now, max_idle),
            cleaned == old(self)@.len() - final(self)@.len(),
    {
        let mut kept: Vec<(String, PortProfile)> = Vec::new();
        let n: usize = self.entries.len();
        let mut i: usize = 0;
        while i < n
            invariant
                i <= n,
                n == self@.len(),
                n == self.entries@.len(),
                kept@.map_values(|e: (String, PortProfile)| (e.0@, e.1)) == kept_flows(
                    self@.take(i as int),
                    now,
                    max_idle,
                ),
                kept@.len() <= i,
            decreases n - i,
        {
            let p = self.entries[i].1;
            let ghost before = kept@.map_values(|e: (String, PortProfile)| (e.0@, e.1));
            proof {
                assert(self@.take(i + 1).drop_last() =~= self@.take(i as int));
                assert(self@.take(i + 1).last() == self@[i as int]);
                assert(self@[i as int] == (self.entries@[i as int].0@, p));
            }
            let stale = if now >= p.last_event {
                now - p.last_event
            } else {
                0
            } > max_idle;
            let cooling = match p.http_lock_expires {
                Some(expires) => now < expires,
                None => false,
            };
            if p.decision_pending || cooling || !stale {
                let k = self.entries[i].0.clone();
                kept.push((k, p));
                assert(kept@.map_values(|e: (String, PortProfile)| (e.0@, e.1)) =~= before.push(
                    self@[i as int],
                ));
            }
            i = i + 1;
        }
        proof {
            assert(self@.take(n as int) =~= self@);
            lemma_kept_flows(self@, now, max_idle);
        }
        let cleaned: usize = n - kept.len();
        self.entries = kept;
        cleaned
    }
}

/// Item to be added to firewall set
pub struct FirewallAddItem {
    pub ip: String,
    pub port: u16,
    pub set_name: String,
    pub fw_type: String,
    pub timeout: u32,
}

/// The view of a firewall addition.
pub struct AddItemView {
    pub ip: Seq<char>,
    pub port: u16,
    pub set_name: Seq<char>,
    pub fw_type: Seq<char>,
    pub timeout: u32,
}

impl View for FirewallAddItem {
    type V = AddItemView;

    open spec fn view(&self) -> AddItemView {
        AddItemView {
            ip: self.ip@,
            port: self.port,
            set_name: self.set_name@,
            fw_type: self.fw_type@,
            timeout: self.timeout,
        }
    }
}

/// The pattern a firewall set name must match.
pub open spec fn set_name_pattern() -> Seq<char> {
    "^[a-zA-Z0-9_]+$"@
}

/// A firewall addition is accepted: IP and set name are not empty, the IP is
/// an IP address, and the set name is made of ASCII letters, digits and
/// underscores (it matches `set_name_pattern`).
pub open spec fn add_accepted(ip: Seq<char>, set_name: Seq<char>, ip_is_address: bool) -> bool {
    &&& ip.len() > 0
    &&& set_name.len() > 0
    &&& ip_is_address
    &&& regex_compiles(set_name_pattern())
    &&& regex_matches(set_name_pattern(), set_name)
}

/// Checks a firewall addition before it is queued. `ip_is_address` tells
/// whether `ip` parses as an IP address. Returns the item to queue, or `None`
/// when the addition is refused.
pub fn validate_add(
    ip: &str,
    port: u16,
    set_name: &str,
    fw_type: &str,
    timeout: u32,
    ip_is_address: bool,
) -> (r: Option<FirewallAddItem>)
    ensures
        r is Some <==> add_accepted(ip@, set_name@, ip_is_address),
        r matches Some(item) ==> item@ == (AddItemView {
            ip: ip@,
            port,
            set_name: set_name@,
            fw_type: fw_type@,
            timeout,
        }),
{
    if ip.is_empty() || set_name.is_empty() {
        return None;
    }
    if !ip_is_address {
        return None;
    }
    let pattern = match UaRegex::new("^[a-zA-Z0-9_]+$") {
        Ok(re) => re,
        Err(_) => {
            return None;
        },
    };
    if !ua_regex_is_match(&pattern, set_name) {
        return None;
    }
    Some(
        FirewallAddItem {
            ip: ip.to_owned(),
            port,
            set_name: set_name.to_owned(),
            fw_type: fw_type.to_owned(),
            timeout,
        },
    )
}

} // verus!

verus! {

/// The position of the first pair with key `k`, if any.
pub open spec fn find_first<V>(s: Seq<(Seq<char>, V)>, k: Seq<char>) -> Option<int>
    decreases s.len(),
{
    if s.len() == 0 {
        None
    } else if s[0].0 == k {
        Some(0)
    } else {
        match find_first(s.drop_first(), k) {
            Some(i) => Some(i + 1),
            None => None,
        }
    }
}

/// What `find_first` finds.
pub proof fn lemma_find_first<V>(s: Seq<(Seq<char>, V)>, k: Seq<char>)
    ensures
        match find_first(s, k) {
            Some(i) => 0 <= i < s.len() && s[i].0 == k && forall|j: int| 0 <= j < i ==> s[j].0 != k,
            None => forall|j: int| 0 <= j < s.len() ==> s[j].0 != k,
        },
    decreases s.len(),
{
    if s.len() > 0 {
        lemma_find_first(s.drop_first(), k);
        assert forall|j: int| 1 <= j < s.len() implies s[j] == s.drop_first()[j - 1] by {}
    }
}

/// The key of the batch an item goes to: `fw_type:set_name`.
pub open spec fn batch_key_of(it: AddItemView) -> Seq<char> {
    it.fw_type + seq![':'] + it.set_name
}

/// A batch with `it` stored under `dedup`, replacing an item of the same key.
pub open spec fn batch_with(items: Seq<(Seq<char>, AddItemView)>, dedup: Seq<char>, it: AddItemView) -> Seq<
    (Seq<char>, AddItemView),
> {
    match find_first(items, dedup) {
        Some(i) => items.update(i, (dedup, it)),
        None => items.push((dedup, it)),
    }
}

/// The batches after `it` is added: to the batch of its key (a new batch at
/// the end if there is none), under its `ip:port`.
pub open spec fn batches_with(
    groups: Seq<(Seq<char>, Seq<(Seq<char>, AddItemView)>)>,
    it: AddItemView,
) -> Seq<(Seq<char>, Seq<(Seq<char>, AddItemView)>)> {
    let gk = batch_key_of(it);
    let dk = flow_key_of(it.ip, it.port);
    match find_first(groups, gk) {
        Some(g) => groups.update(g, (gk, batch_with(groups[g].1, dk, it))),
        None => groups.push((gk, seq![(dk, it)])),
    }
}

/// Firewall additions waiting for one command per set, each set's items
/// keyed by `ip:port`.
pub struct FirewallBatch {
    pub key: String,
    pub items: Vec<(String, FirewallAddItem)>,
}

impl View for FirewallBatch {
    type V = (Seq<char>, Seq<(Seq<char>, AddItemView)>);

    open spec fn view(&self) -> (Seq<char>, Seq<(Seq<char>, AddItemView)>) {
        (self.key@, self.items@.map_values(|e: (String, FirewallAddItem)| (e.0@, e.1@)))
    }
}

/// The views of a list of batches.
pub open spec fn batch_views(v: Seq<FirewallBatch>) -> Seq<(Seq<char>, Seq<(Seq<char>, AddItemView)>)> {
    v.map_values(|b: FirewallBatch| b@)
}

/// The additions collected since the last flush, batched per set.
pub struct PendingBatches {
    batches: Vec<FirewallBatch>,
    max_batch_size: usize,
}

impl View for PendingBatches {
    type V = Seq<(Seq<char>, Seq<(Seq<char>, AddItemView)>)>;

    closed spec fn view(&self) -> Seq<(Seq<char>, Seq<(Seq<char>, AddItemView)>)> {
        batch_views(self.batches@)
    }
}

fn find_item(items: &Vec<(String, FirewallAddItem)>, key: &String) -> (r: Option<usize>)
    ensures
        match r {
            Some(i) => i < items@.len() && find_first(
                items@.map_values(|e: (String, FirewallAddItem)| (e.0@, e.1@)),
                key@,
            ) == Some(i as int),
            None => find_first(
                items@.map_values(|e: (String, FirewallAddItem)| (e.0@, e.1@)),
                key@,
            ) is None,
        },
{
    let ghost s = items@.map_values(|e: (String, FirewallAddItem)| (e.0@, e.1@));
    proof {
        lemma_find_first(s, key@);
    }
    let mut i: usize = 0;
    while i < items.len()
        invariant
            i <= s.len(),
            s == items@.map_values(|e: (String, FirewallAddItem)| (e.0@, e.1@)),
            forall|j: int| 0 <= j < i ==> s[j].0 != key@,
            match find_first(s, key@) {
                Some(p) => 0 <= p < s.len() && s[p].0 == key@ && forall|j: int|
                    0 <= j < p ==> s[j].0 != key@,
                None => forall|j: int| 0 <= j < s.len() ==> s[j].0 != key@,
            },
        decreases s.len() - i,
    {
        assert(s[i as int].0 == items@[i as int].0@);
        if items[i].0 == *key {
            return Some(i);
        }
        i = i + 1;
    }
    None
}

fn find_batch(batches: &Vec<FirewallBatch>, key: &String) -> (r: Option<usize>)
    ensures
        match r {
            Some(i) => i < batches@.len() && find_first(batch_views(batches@), key@) == Some(i as int),
            None => find_first(batch_views(batches@), key@) is None,
        },
{
    let ghost s = batch_views(batches@);
    proof {
        lemma_find_first(s, key@);
    }
    let mut i: usize = 0;
    while i < batches.len()
        invariant
            i <= s.len(),
            s == batch_views(batches@),
            forall|j: int| 0 <= j < i ==> s[j].0 != key@,
            match find_first(s, key@) {
                Some(p) => 0 <= p < s.len() && s[p].0 == key@ && forall|j: int|
                    0 <= j < p ==> s[j].0 != key@,
                None => forall|j: int| 0 <= j < s.len() ==> s[j].0 != key@,
            },
        decreases s.len() - i,
    {
        assert(s[i as int].0 == batches@[i as int].key@);
        if batches[i].key == *key {
            return Some(i);
        }
        i = i + 1;
    }
    None
}

impl PendingBatches {
    /// The number of items in a batch at which all batches are flushed.
    pub closed spec fn max_batch_size(&self) -> nat {
        self.max_batch_size as nat
    }

    /// No batches yet; they are flushed once the first batch holds
    /// `max_batch_size` items.
    pub fn new(max_batch_size: usize) -> (p: Self)
        ensures
            p@ == Seq::<(Seq<char>, Seq<(Seq<char>, AddItemView)>)>::empty(),
            p.max_batch_size() == max_batch_size,
    {
        let p = PendingBatches { batches: Vec::new(), max_batch_size };
        assert(p@ =~= Seq::<(Seq<char>, Seq<(Seq<char>, AddItemView)>)>::empty());
        p
    }

    /// Whether no addition is waiting.
    pub fn is_empty(&self) -> (b: bool)
        ensures
            b == (self@.len() == 0),
    {
        self.batches.len() == 0
    }

    /// Takes every batch, leaving none.
    pub fn take_all(&mut self) -> (r: Vec<FirewallBatch>)
        ensures
            batch_views(r@) == old(self)@,
            final(self)@ == Seq::<(Seq<char>, Seq<(Seq<char>, AddItemView)>)>::empty(),
            final(self).max_batch_size() == old(self).max_batch_size(),
    {
        let mut taken: Vec<FirewallBatch> = Vec::new();
        std::mem::swap(&mut taken, &mut self.batches);
        assert(self@ =~= Seq::<(Seq<char>, Seq<(Seq<char>, AddItemView)>)>::empty());
        taken
    }

    /// Adds `item` to the batch of its set, replacing an earlier item for the
    /// same `ip:port`. When the first batch then holds at least
    /// `max_batch_size` items, every batch is taken and returned.
    pub fn push(&mut self, item: FirewallAddItem) -> (r: Option<Vec<FirewallBatch>>)
        ensures
            final(self).max_batch_size() == old(self).max_batch_size(),
            ({
                let next = batches_with(old(self)@, item@);
                if next[0].1.len() >= old(self).max_batch_size() {
                    &&& r matches Some(v) && batch_views(v@) == next
                    &&& final(self)@ == Seq::<(Seq<char>, Seq<(Seq<char>, AddItemView)>)>::empty()
                } else {
                    &&& r is None
                    &&& final(self)@ == next
                }
            }),
    {
        let ghost it = item@;
        let ghost before = self@;
        let mut gk: Vec<char> = Vec::new();
        append_chars(&mut gk, item.fw_type.as_str());
        gk.push(':');
        append_chars(&mut gk, item.set_name.as_str());
        assert(gk@ =~= batch_key_of(it));
        let gkey = string_from_chars(&gk);
        let dkey = flow_key(item.ip.as_str(), item.port);
        let ghost bv = self.batches@;
        match find_batch(&self.batches, &gkey) {
            Some(g) => {
                proof {
                    lemma_find_first(batch_views(bv), gkey@);
                }
                let mut batch = self.batches.remove(g);
                assert(batch == bv[g as int]);
                let ghost items_before = batch@.1;
                assert(items_before == before[g as int].1);
                match find_item(&batch.items, &dkey) {
                    Some(i) => {
                        batch.items.set(i, (dkey, item));
                    },
                    None => {
                        batch.items.push((dkey, item));
                    },
                }
                assert(batch@.1 =~= batch_with(items_before, flow_key_of(it.ip, it.port), it));
                let ghost nb = batch;
                self.batches.insert(g, batch);
                assert(self.batches@ =~= bv.update(g as int, nb));
                assert(batch_views(self.batches@) =~= batch_views(bv).update(g as int, nb@));
                assert(nb@.0 == batch_key_of(it));
                assert(self@ =~= batches_with(before, it));
            },
            None => {
                let mut items: Vec<(String, FirewallAddItem)> = Vec::new();
                items.push((dkey, item));
                let nb = FirewallBatch { key: gkey, items };
                assert(nb@.1 =~= seq![(flow_key_of(it.ip, it.port), it)]);
                let ghost nbv = nb@;
                self.batches.push(nb);
                assert(batch_views(self.batches@) =~= batch_views(bv).push(nbv));
                assert(self@ =~= batches_with(before, it));
            },
        }
        if self.batches[0].items.len() >= self.max_batch_size {
            assert(self@[0].1.len() == self.batches@[0].items@.len());
            return Some(self.take_all());
        }
        assert(self@[0].1.len() == self.batches@[0].items@.len());
        None
    }
}

} // verus!

verus! {

/// One element of an `nft add element` command: `ip . port`, with
/// ` timeout Ns` when the item has a timeout.
pub open spec fn nft_element(it: AddItemView) -> Seq<char> {
    it.ip + " . "@ + decimal_nat(it.port as nat) + if it.timeout > 0 {
        " timeout "@ + decimal_nat(it.timeout as nat) + "s"@
    } else {
        Seq::empty()
    }
}

/// The elements of the items, separated by `, `.
pub open spec fn nft_elements(items: Seq<AddItemView>) -> Seq<char>
    decreases items.len(),
{
    if items.len() == 0 {
        Seq::empty()
    } else if items.len() == 1 {
        nft_element(items[0])
    } else {
        nft_elements(items.drop_last()) + ", "@ + nft_element(items.last())
    }
}

/// The arguments of `nft` that add the items to the set `set_name` of the
/// `inet fw4` table.
pub open spec fn nft_args(set_name: Seq<char>, items: Seq<AddItemView>) -> Seq<Seq<char>> {
    seq!["add"@, "element"@, "inet"@, "fw4"@, set_name, "{"@, nft_elements(items), "}"@]
}

/// One line of `ipset restore` input adding an item to the set `set_name`.
pub open spec fn ipset_line(set_name: Seq<char>, it: AddItemView) -> Seq<char> {
    "add "@ + set_name + " "@ + it.ip + ","@ + decimal_nat(it.port as nat) + if it.timeout > 0 {
        " timeout "@ + decimal_nat(it.timeout as nat)
    } else {
        Seq::empty()
    } + " -exist\n"@
}

/// The `ipset restore` input adding the items to the set `set_name`, one line
/// each.
pub open spec fn ipset_input(set_name: Seq<char>, items: Seq<AddItemView>) -> Seq<char>
    decreases items.len(),
{
    if items.len() == 0 {
        Seq::empty()
    } else {
        ipset_input(set_name, items.drop_last()) + ipset_line(set_name, items.last())
    }
}

/// The items of a batch, in order.
pub open spec fn batch_items(items: Seq<(Seq<char>, AddItemView)>) -> Seq<AddItemView> {
    items.map_values(|e: (Seq<char>, AddItemView)| e.1)
}

/// A firewall command that carries out one batch.
pub enum FirewallCommand {
    /// Run `nft` with these arguments.
    Nft { set_name: String, fw_type: String, args: Vec<String> },
    /// Run `ipset restore` with this input.
    Ipset { set_name: String, fw_type: String, input: String },
}

fn push_nft_element(v: &mut Vec<char>, it: &FirewallAddItem)
    ensures
        final(v)@ == old(v)@ + nft_element(it@),
{
    append_chars(v, it.ip.as_str());
    append_chars(v, " . ");
    append_decimal(it.port as u64, v);
    if it.timeout > 0 {
        append_chars(v, " timeout ");
        append_decimal(it.timeout as u64, v);
        append_chars(v, "s");
    }
    assert(final(v)@ =~= old(v)@ + nft_element(it@));
}

fn push_ipset_line(v: &mut Vec<char>, set_name: &str, it: &FirewallAddItem)
    ensures
        final(v)@ == old(v)@ + ipset_line(set_name@, it@),
{
    append_chars(v, "add ");
    append_chars(v, set_name);
    append_chars(v, " ");
    append_chars(v, it.ip.as_str());
    append_chars(v, ",");
    append_decimal(it.port as u64, v);
    if it.timeout > 0 {
        append_chars(v, " timeout ");
        append_decimal(it.timeout as u64, v);
    }
    append_chars(v, " -exist\n");
    assert(final(v)@ =~= old(v)@ + ipset_line(set_name@, it@));
}

/// The arguments of the `nft` command that adds `items` to `set_name`.
pub fn nft_batch_args(set_name: &str, items: &Vec<(String, FirewallAddItem)>) -> (r: Vec<String>)
    ensures
        r@.map_values(|s: String| s@) == nft_args(
            set_name@,
            batch_items(items@.map_values(|e: (String, FirewallAddItem)| (e.0@, e.1@))),
        ),
{
    let ghost all = batch_items(items@.map_values(|e: (String, FirewallAddItem)| (e.0@, e.1@)));
    let mut elements: Vec<char> = Vec::new();
    let mut i: usize = 0;
    while i < items.len()
        invariant
            i <= items@.len(),
            all == batch_items(items@.map_values(|e: (String, FirewallAddItem)| (e.0@, e.1@))),
            all.len() == items@.len(),
            elements@ == nft_elements(all.take(i as int)),
        decreases items@.len() - i,
    {
        assert(all[i as int] == items@[i as int].1@);
        assert(all.take(i + 1).drop_last() =~= all.take(i as int));
        if i > 0 {
            append_chars(&mut elements, ", ");
        }
        push_nft_element(&mut elements, &items[i].1);
        proof {
            if i == 0 {
                assert(elements@ =~= nft_elements(all.take(1)));
            } else {
                assert(elements@ =~= nft_elements(all.take(i + 1)));
            }
        }
        i = i + 1;
    }
    assert(all.take(items@.len() as int) =~= all);
    let mut args: Vec<String> = Vec::new();
    args.push("add".to_owned());
    args.push("element".to_owned());
    args.push("inet".to_owned());
    args.push("fw4".to_owned());
    args.push(set_name.to_owned());
    args.push("{".to_owned());
    args.push(string_from_chars(&elements));
    args.push("}".to_owned());
    assert(args@.map_values(|s: String| s@) =~= nft_args(set_name@, all));
    args
}

/// The `ipset restore` input that adds `items` to `set_name`.
pub fn ipset_batch_input(set_name: &str, items: &Vec<(String, FirewallAddItem)>) -> (r: String)
    ensures
        r@ == ipset_input(
            set_name@,
            batch_items(items@.map_values(|e: (String, FirewallAddItem)| (e.0@, e.1@))),
        ),
{
    let ghost all = batch_items(items@.map_values(|e: (String, FirewallAddItem)| (e.0@, e.1@)));
    let mut text: Vec<char> = Vec::new();
    let mut i: usize = 0;
    while i < items.len()
        invariant
            i <= items@.len(),
            all == batch_items(items@.map_values(|e: (String, FirewallAddItem)| (e.0@, e.1@))),
            all.len() == items@.len(),
            text@ == ipset_input(set_name@, all.take(i as int)),
        decreases items@.len() - i,
    {
        assert(all[i as int] == items@[i as int].1@);
        assert(all.take(i + 1).drop_last() =~= all.take(i as int));
        push_ipset_line(&mut text, set_name, &items[i].1);
        i = i + 1;
    }
    assert(all.take(items@.len() as int) =~= all);
    string_from_chars(&text)
}

/// The command for a batch, by its first item's firewall type and set name:
/// `nft` for type `nft`, `ipset restore` for any other; none for an empty
/// batch.
pub fn batch_command(batch: &FirewallBatch) -> (r: Option<FirewallCommand>)
    ensures
        ({
            let items = batch_items(batch@.1);
            if items.len() == 0 {
                r is None
            } else {
                let first = items[0];
                if first.fw_type == "nft"@ {
                    r matches Some(FirewallCommand::Nft { set_name, fw_type, args })
                        && set_name@ == first.set_name && fw_type@ == first.fw_type
                        && args@.map_values(|s: String| s@) == nft_args(first.set_name, items)
                } else {
                    r matches Some(FirewallCommand::Ipset { set_name, fw_type, input })
                        && set_name@ == first.set_name && fw_type@ == first.fw_type
                        && input@ == ipset_input(first.set_name, items)
                }
            }
        }),
{
    if batch.items.len() == 0 {
        return None;
    }
    let first = &batch.items[0].1;
    assert(batch_items(batch@.1)[0] == first@);
    let set_name = first.set_name.clone();
    let fw_type = first.fw_type.clone();
    if first.fw_type == "nft".to_owned() {
        let args = nft_batch_args(first.set_name.as_str(), &batch.items);
        Some(FirewallCommand::Nft { set_name, fw_type, args })
    } else {
        let input = ipset_batch_input(first.set_name.as_str(), &batch.items);
        Some(FirewallCommand::Ipset { set_name, fw_type, input })
    }
}

} // verus!

verus! {

/// The views of a list of strings.
pub open spec fn arg_views(v: Seq<String>) -> Seq<Seq<char>> {
    v.map_values(|s: String| s@)
}

/// The arguments of `ipset` that create the set `set_name` of `ip,port` pairs
/// whose entries time out after `timeout` seconds (kept if it exists).
pub open spec fn ipset_create_spec(set_name: Seq<char>, timeout: i32) -> Seq<Seq<char>> {
    seq!["create"@, set_name, "hash:ip,port"@, "timeout"@, decimal_int(timeout as int), "-exist"@]
}

/// The arguments of `ipset` that destroy the set `set_name`.
pub open spec fn ipset_destroy_spec(set_name: Seq<char>) -> Seq<Seq<char>> {
    seq!["destroy"@, set_name, "-exist"@]
}

/// The arguments of `nft` that create the set `set_name` of address and port
/// pairs in the `inet fw4` table, whose entries time out after `timeout`
/// seconds.
pub open spec fn nft_create_spec(set_name: Seq<char>, timeout: i32) -> Seq<Seq<char>> {
    seq![
        "add"@,
        "set"@,
        "inet"@,
        "fw4"@,
        set_name,
        "{"@,
        "type"@,
        "ipv4_addr . inet_service"@,
        ";"@,
        "timeout"@,
        decimal_int(timeout as int) + "s"@,
        ";"@,
        "}"@,
    ]
}

/// The arguments of `nft` that delete the set `set_name` of the `inet fw4`
/// table.
pub open spec fn nft_delete_spec(set_name: Seq<char>) -> Seq<Seq<char>> {
    seq!["delete"@, "set"@, "inet"@, "fw4"@, set_name]
}

/// The arguments of `ipset` that create the set `set_name`.
pub fn ipset_create_args(set_name: &str, timeout: i32) -> (r: Vec<String>)
    ensures
        arg_views(r@) == ipset_create_spec(set_name@, timeout),
{
    let mut args: Vec<String> = Vec::new();
    args.push("create".to_owned());
    args.push(set_name.to_owned());
    args.push("hash:ip,port".to_owned());
    args.push("timeout".to_owned());
    args.push(i64_to_decimal(timeout as i64));
    args.push("-exist".to_owned());
    assert(arg_views(args@) =~= ipset_create_spec(set_name@, timeout));
    args
}

/// The arguments of `ipset` that destroy the set `set_name`.
pub fn ipset_destroy_args(set_name: &str) -> (r: Vec<String>)
    ensures
        arg_views(r@) == ipset_destroy_spec(set_name@),
{
    let mut args: Vec<String> = Vec::new();
    args.push("destroy".to_owned());
    args.push(set_name.to_owned());
    args.push("-exist".to_owned());
    assert(arg_views(args@) =~= ipset_destroy_spec(set_name@));
    args
}

/// The arguments of `nft` that create the set `set_name`.
pub fn nft_create_set_args(set_name: &str, timeout: i32) -> (r: Vec<String>)
    ensures
        arg_views(r@) == nft_create_spec(set_name@, timeout),
{
    let mut args: Vec<String> = Vec::new();
    args.push("add".to_owned());
    args.push("set".to_owned());
    args.push("inet".to_owned());
    args.push("fw4".to_owned());
    args.push(set_name.to_owned());
    args.push("{".to_owned());
    args.push("type".to_owned());
    args.push("ipv4_addr . inet_service".to_owned());
    args.push(";".to_owned());
    args.push("timeout".to_owned());
    let digits = i64_to_decimal(timeout as i64);
    args.push(concat_str(digits.as_str(), "s"));
    args.push(";".to_owned());
    args.push("}".to_owned());
    assert(arg_views(args@) =~= nft_create_spec(set_name@, timeout));
    args
}

/// The arguments of `nft` that delete the set `set_name`.
pub fn nft_delete_set_args(set_name: &str) -> (r: Vec<String>)
    ensures
        arg_views(r@) == nft_delete_spec(set_name@),
{
    let mut args: Vec<String> = Vec::new();
    args.push("delete".to_owned());
    args.push("set".to_owned());
    args.push("inet".to_owned());
    args.push("fw4".to_owned());
    args.push(set_name.to_owned());
    assert(arg_views(args@) =~= nft_delete_spec(set_name@));
    args
}

} // verus!

verus! {

/// A non-HTTP event at `now` outside the flow's cooldown counts one more
/// event, records `now` as the flow's last event, keeps its cooldown, makes a
/// decision pending once the score reaches the threshold, and leaves every
/// other flow as it was; a cleanup no later than `max_idle` after it keeps the
/// flow.
pub proof fn lemma_non_http_event_records(
    t: Seq<(Seq<char>, PortProfile)>,
    key: Seq<char>,
    other: Seq<char>,
    now: u64,
    threshold: u32,
    later: u64,
    max_idle: u64,
)
    requires
        distinct_flows(t),
        !in_cooldown(current_profile(t, key, now), now),
    ensures
        ({
            let cur = current_profile(t, key, now);
            let next = with_profile(t, key, after_non_http_event(cur, now, threshold));
            &&& profile_of(next, key) matches Some(q) && q.last_event == now
                && q.non_http_score as int == (cur.non_http_score as int + 1) % 0x1_0000_0000
                && q.http_lock_expires == cur.http_lock_expires
                && (q.decision_pending <==> (cur.decision_pending || q.non_http_score >= threshold))
            &&& other != key ==> profile_of(next, other) == profile_of(t, other)
            &&& now <= later && later - now <= max_idle ==> profile_of(
                kept_flows(next, later, max_idle),
                key,
            ) == profile_of(next, key)
        }),
{
    let cur = current_profile(t, key, now);
    let q = after_non_http_event(cur, now, threshold);
    lemma_with_profile(t, key, q, other);
    let next = with_profile(t, key, q);
    lemma_kept_flows(next, later, max_idle);
}

/// An HTTP event at `now` outside the flow's cooldown resets its score to
/// zero, records `now` as its last event, starts a cooldown until
/// `now + cooldown`, cancels a pending decision, and leaves every other flow as
/// it was.
pub proof fn lemma_http_event_records(
    t: Seq<(Seq<char>, PortProfile)>,
    key: Seq<char>,
    other: Seq<char>,
    now: u64,
    cooldown: u64,
)
    requires
        distinct_flows(t),
        now + cooldown <= u64::MAX,
        !in_cooldown(current_profile(t, key, now), now),
    ensures
        ({
            let next = with_profile(t, key, after_http_event(current_profile(t, key, now), now, cooldown));
            &&& profile_of(next, key) == Some(
                PortProfile {
                    non_http_score: 0,
                    http_lock_expires: Some((now + cooldown) as u64),
                    last_event: now,
                    decision_pending: false,
                },
            )
            &&& other != key ==> profile_of(next, other) == profile_of(t, other)
        }),
{
    let q = after_http_event(current_profile(t, key, now), now, cooldown);
    lemma_with_profile(t, key, q, other);
}

/// The elements of an `nft` batch are separated by `, `: one item gives its
/// element alone, and adding an item to a non-empty list adds `, ` and its
/// element, whatever the list's length.
pub proof fn lemma_nft_elements_join(s: Seq<AddItemView>, x: AddItemView)
    ensures
        nft_elements(Seq::<AddItemView>::empty()) == Seq::<char>::empty(),
        s.len() == 0 ==> nft_elements(s.push(x)) == nft_element(x),
        s.len() > 0 ==> nft_elements(s.push(x)) == nft_elements(s) + ", "@ + nft_element(x),
{
    assert(s.push(x).drop_last() =~= s);
    if s.len() == 0 {
        assert(s.push(x)[0] == x);
    }
}

/// The `ipset restore` input holds one line per item, in order: adding an
/// item adds its line after the others.
pub proof fn lemma_ipset_input_lines(set_name: Seq<char>, s: Seq<AddItemView>, x: AddItemView)
    ensures
        ipset_input(set_name, Seq::<AddItemView>::empty()) == Seq::<char>::empty(),
        ipset_input(set_name, s.push(x)) == ipset_input(set_name, s) + ipset_line(set_name, x),
{
    assert(s.push(x).drop_last() =~= s);
}

} // verus!
