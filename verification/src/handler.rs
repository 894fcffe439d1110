//! The User-Agent rewriting of the proxy: telling HTTP from other traffic,
//! deciding whether a User-Agent is replaced and by what, and rewriting request
//! heads through the cache of earlier decisions.

use std::sync::Arc;

use vstd::prelude::*;
use vstd::utf8::{decode_utf8, encode_utf8, valid_utf8};

use crate::cache::{after_get, after_put, entries_wf, lookup, UaCache};
use crate::config::Config;
use crate::http::{
    append_bytes, find_user_agent, httparse_request, parse_request_head, rebuild_from_head,
    rebuilt_from, ua_header_position, utf8_to_string, ParseStatus, RequestHead, RequestHeadView,
};
use crate::matcher::{regex_matches, regex_replace_all, ua_regex_is_match, ua_regex_replace_all, UaRegex};
use crate::stats::{wrap_add, Stats};
use crate::text::{chars_contain, chars_of, contains_seq};

verus! {

/// The request methods that mark a connection as HTTP: GET, POST, HEAD, PUT,
/// DELETE, OPTIONS, TRACE, CONNECT, PATCH.
pub open spec fn http_methods() -> Seq<Seq<u8>> {
    seq![
        seq![71u8, 69u8, 84u8],
        seq![80u8, 79u8, 83u8, 84u8],
        seq![72u8, 69u8, 65u8, 68u8],
        seq![80u8, 85u8, 84u8],
        seq![68u8, 69u8, 76u8, 69u8, 84u8, 69u8],
        seq![79u8, 80u8, 84u8, 73u8, 79u8, 78u8, 83u8],
        seq![84u8, 82u8, 65u8, 67u8, 69u8],
        seq![67u8, 79u8, 78u8, 78u8, 69u8, 67u8, 84u8],
        seq![80u8, 65u8, 84u8, 67u8, 72u8],
    ]
}

/// `data` begins like an HTTP request: it has at least seven bytes and starts
/// with one of the request methods.
pub open spec fn looks_like_http(data: Seq<u8>) -> bool {
    &&& data.len() >= 7
    &&& exists|i: int| 0 <= i < http_methods().len() && #[trigger] http_methods()[i].is_prefix_of(data)
}

/// The view of an optional regex: its pattern.
pub open spec fn regex_view(r: Option<UaRegex>) -> Option<Seq<char>> {
    match r {
        Some(re) => Some(re@),
        None => None,
    }
}

/// `s` is one of the strings in `list`.
pub open spec fn listed(list: Seq<String>, s: Seq<char>) -> bool {
    exists|i: int| 0 <= i < list.len() && (#[trigger] list[i])@ == s
}

/// One of the strings in `list` occurs in `s`.
pub open spec fn has_listed_part(list: Seq<String>, s: Seq<char>) -> bool {
    exists|i: int| 0 <= i < list.len() && contains_seq(s, (#[trigger] list[i])@)
}

/// Whether `cfg` has the User-Agent `ua` replaced, and why: whitelisted ones
/// never are; otherwise all are in force mode, those the pattern matches in
/// regex mode, and those holding a keyword in keyword mode.
pub open spec fn replace_decision(cfg: Config, ua: Seq<char>) -> (bool, Seq<char>) {
    if listed(cfg.whitelist@, ua) {
        (false, "Hit User-Agent Whitelist"@)
    } else if cfg.force_replace {
        (true, "Force Replace Mode"@)
    } else if cfg.enable_regex {
        if cfg.ua_regexp matches Some(re) && regex_matches(re@, ua) {
            (true, "Hit User-Agent Pattern"@)
        } else {
            (false, "Not Hit User-Agent Pattern"@)
        }
    } else if has_listed_part(cfg.keywords_list@, ua) {
        (true, "Hit User-Agent Keyword"@)
    } else {
        (false, "Not Hit User-Agent Keywords"@)
    }
}

/// The User-Agent put in place of `origin`: with partial replacement and a
/// regex, each match of the regex is replaced; otherwise the whole of it.
pub open spec fn new_ua_for(
    origin: Seq<char>,
    replacement: Seq<char>,
    re: Option<Seq<char>>,
    partial: bool,
) -> Seq<char> {
    if partial && re is Some {
        regex_replace_all(re.unwrap(), origin, replacement)
    } else {
        replacement
    }
}

/// The User-Agent that `cfg` sends on in place of `ua`.
pub open spec fn decided_ua(cfg: Config, ua: Seq<char>) -> Seq<char> {
    if replace_decision(cfg, ua).0 {
        new_ua_for(ua, cfg.user_agent@, regex_view(cfg.ua_regexp), cfg.enable_partial_replace)
    } else {
        ua
    }
}

/// For a complete parsed head `head` with a non-empty, valid UTF-8
/// User-Agent: the head's length, the position of the User-Agent header, and
/// the User-Agent.
pub open spec fn head_ua(head: RequestHeadView) -> Option<(int, int, Seq<char>)> {
    match head.status {
        ParseStatus::Complete(n) => match ua_header_position(head.headers) {
            Some(i) => {
                let value = head.headers[i].1;
                if valid_utf8(value) && decode_utf8(value).len() > 0 {
                    Some((n as int, i, decode_utf8(value)))
                } else {
                    None
                }
            },
            None => None,
        },
        _ => None,
    }
}

/// `head_ua` of the head that `httparse` makes of `buf`.
pub open spec fn request_ua(buf: Seq<u8>) -> Option<(int, int, Seq<char>)> {
    head_ua(httparse_request(buf))
}

/// What handling a request gives: the bytes to send on, whether they are a
/// rewritten request, and whether the User-Agent was found in the cache.
pub struct HandledView {
    pub bytes: Seq<u8>,
    pub modified: bool,
    pub cache_hit: bool,
}

/// What handling the request in `buf`, whose parsed head is `head`, gives, and
/// the cache entries it leaves, given the configuration and the cache entries
/// (of capacity `cap`) before. A request with a usable User-Agent is rewritten
/// with the cached User-Agent when that differs from it, or, on a cache miss,
/// with the decided User-Agent when the configuration replaces it; every other
/// request is sent on as it is.
pub open spec fn outcome_from_head(
    cfg: Config,
    entries: Seq<(Seq<char>, Seq<char>)>,
    cap: nat,
    buf: Seq<u8>,
    head: RequestHeadView,
) -> (HandledView, Seq<(Seq<char>, Seq<char>)>) {
    match head_ua(head) {
        None => (HandledView { bytes: buf, modified: false, cache_hit: false }, entries),
        Some((n, i, ua)) => match lookup(entries, ua) {
            Some(cached) => (
                if cached != ua {
                    HandledView {
                        bytes: rebuilt_from(head, buf, n, i, encode_utf8(cached)),
                        modified: true,
                        cache_hit: true,
                    }
                } else {
                    HandledView { bytes: buf, modified: false, cache_hit: true }
                },
                after_get(entries, ua),
            ),
            None => if !replace_decision(cfg, ua).0 {
                (
                    HandledView { bytes: buf, modified: false, cache_hit: false },
                    after_put(entries, cap, ua, ua),
                )
            } else {
                let new_ua = decided_ua(cfg, ua);
                (
                    HandledView {
                        bytes: rebuilt_from(head, buf, n, i, encode_utf8(new_ua)),
                        modified: true,
                        cache_hit: false,
                    },
                    after_put(entries, cap, ua, new_ua),
                )
            },
        },
    }
}

/// `outcome_from_head` for the head that `httparse` makes of `buf`.
pub open spec fn process_outcome(
    cfg: Config,
    entries: Seq<(Seq<char>, Seq<char>)>,
    cap: nat,
    buf: Seq<u8>,
) -> (HandledView, Seq<(Seq<char>, Seq<char>)>) {
    outcome_from_head(cfg, entries, cap, buf, httparse_request(buf))
}

/// Every cached User-Agent maps to the one the configuration decides for it.
pub open spec fn cache_consistent(cfg: Config, entries: Seq<(Seq<char>, Seq<char>)>) -> bool {
    forall|k: int| 0 <= k < entries.len() ==> (#[trigger] entries[k]).1 == decided_ua(cfg, entries[k].0)
}

/// The bytes sent on for the request in `buf` (parsed head `head`) carry the
/// User-Agent the configuration decides: a request without a usable
/// User-Agent, or whose User-Agent the configuration does not replace, is sent
/// on byte for byte; one whose User-Agent it changes is rewritten with the
/// decided one; one whose replacement comes out equal to the User-Agent is sent
/// on as it is or written back with that same User-Agent.
pub open spec fn carries_decision(cfg: Config, buf: Seq<u8>, head: RequestHeadView, out: HandledView) -> bool {
    match head_ua(head) {
        None => !out.modified && out.bytes == buf,
        Some((n, i, ua)) => {
            &&& !replace_decision(cfg, ua).0 ==> !out.modified && out.bytes == buf
            &&& decided_ua(cfg, ua) != ua ==> out.modified && out.bytes == rebuilt_from(
                head,
                buf,
                n,
                i,
                encode_utf8(decided_ua(cfg, ua)),
            )
            &&& decided_ua(cfg, ua) == ua ==> (!out.modified && out.bytes == buf) || (out.modified
                && out.bytes == rebuilt_from(head, buf, n, i, encode_utf8(ua)))
        },
    }
}

/// The outcome of handling one request.
pub struct HandledRequest {
    /// The bytes to send upstream: the rewritten request, or the request as it
    /// was received.
    pub bytes: Vec<u8>,
    /// Whether `bytes` is a rewritten request.
    pub modified: bool,
    /// Whether the User-Agent was found in the cache.
    pub cache_hit: bool,
}

impl View for HandledRequest {
    type V = HandledView;

    open spec fn view(&self) -> HandledView {
        HandledView { bytes: self.bytes@, modified: self.modified, cache_hit: self.cache_hit }
    }
}


/// HTTP handler for UA modification
pub struct HttpHandler {
    config: Arc<Config>,
    cache: UaCache,
}

impl HttpHandler {
    /// The configuration the handler decides by.
    pub closed spec fn config_view(&self) -> Config {
        *self.config
    }

    /// The cache entries, most recently used first.
    pub closed spec fn cache_view(&self) -> Seq<(Seq<char>, Seq<char>)> {
        self.cache@
    }

    /// The capacity of the cache.
    pub closed spec fn cache_capacity(&self) -> nat {
        self.cache.capacity()
    }

    /// The cache has its shape, and maps every User-Agent it holds to the one
    /// the configuration decides for it.
    pub closed spec fn wf(&self) -> bool {
        &&& self.cache.wf()
        &&& cache_consistent(*self.config, self.cache@)
    }

    /// A well-formed handler's cache has its shape and maps every User-Agent it
    /// holds to the one the configuration decides for it.
    pub proof fn lemma_wf_cache(&self)
        requires
            self.wf(),
        ensures
            entries_wf(self.cache_view(), self.cache_capacity()),
            cache_consistent(self.config_view(), self.cache_view()),
    {
    }

    /// Create a new HTTP handler with an empty cache of `max(cache_size, 1)`
    /// entries.
    pub fn new(config: Arc<Config>) -> (h: Self)
        ensures
            h.wf(),
            h.config_view() == *config,
            h.cache_view() == Seq::<(Seq<char>, Seq<char>)>::empty(),
            h.cache_capacity() == if config.cache_size >= 1 {
                config.cache_size as nat
            } else {
                1
            },
    {
        let cache_size: i32 = if config.cache_size >= 1 {
            config.cache_size
        } else {
            1
        };
        HttpHandler { config, cache: UaCache::new(cache_size as usize) }
    }

    /// Whether `data` starts like an HTTP request (its first seven bytes begin
    /// with a request method).
    pub fn is_http(data: &[u8]) -> (b: bool)
        ensures
            b == looks_like_http(data@),
    {
        if data.len() < 7 {
            return false;
        }
        let methods: Vec<Vec<u8>> = vec![
            vec![71u8, 69u8, 84u8],
            vec![80u8, 79u8, 83u8, 84u8],
            vec![72u8, 69u8, 65u8, 68u8],
            vec![80u8, 85u8, 84u8],
            vec![68u8, 69u8, 76u8, 69u8, 84u8, 69u8],
            vec![79u8, 80u8, 84u8, 73u8, 79u8, 78u8, 83u8],
            vec![84u8, 82u8, 65u8, 67u8, 69u8],
            vec![67u8, 79u8, 78u8, 78u8, 69u8, 67u8, 84u8],
            vec![80u8, 65u8, 84u8, 67u8, 72u8],
        ];
        assert(methods@.map_values(|m: Vec<u8>| m@) =~= http_methods());
        let mut i: usize = 0;
        while i < methods.len()
            invariant
                i <= methods@.len(),
                methods@.len() == http_methods().len(),
                forall|k: int| 0 <= k < methods@.len() ==> (#[trigger] methods@[k])@ == http_methods()[k],
                data@.len() >= 7,
                forall|k: int| 0 <= k < i ==> !(#[trigger] http_methods()[k]).is_prefix_of(data@),
            decreases methods@.len() - i,
        {
            assert(methods@[i as int]@ == http_methods()[i as int]);
            if starts_with(data, &methods[i]) {
                return true;
            }
            i = i + 1;
        }
        false
    }

    /// Build the new User-Agent: with partial replacement and a regex, the
    /// regex's matches in `origin_ua` are replaced; otherwise the replacement is
    /// returned whole.
    pub fn build_new_ua(
        origin_ua: &str,
        replacement_ua: &str,
        ua_regexp: &Option<UaRegex>,
        enable_partial_replace: bool,
    ) -> (s: String)
        ensures
            s@ == new_ua_for(origin_ua@, replacement_ua@, regex_view(*ua_regexp), enable_partial_replace),
            enable_partial_replace && ua_regexp is Some && !regex_matches(
                ua_regexp.unwrap()@,
                origin_ua@,
            ) ==> s@ == origin_ua@,
    {
        if enable_partial_replace {
            if let Some(re) = ua_regexp {
                return ua_regex_replace_all(re, origin_ua, replacement_ua);
            }
        }
        replacement_ua.to_owned()
    }

    /// Whether the User-Agent `ua` is replaced, and the reason.
    pub fn should_replace_ua(&self, ua: &str) -> (r: (bool, &'static str))
        ensures
            r.0 == replace_decision(self.config_view(), ua@).0,
            r.1@ == replace_decision(self.config_view(), ua@).1,
    {
        let cfg: &Config = &self.config;
        let ua_owned: String = ua.to_owned();
        let mut i: usize = 0;
        while i < cfg.whitelist.len()
            invariant
                *cfg == self.config_view(),
                i <= cfg.whitelist@.len(),
                ua_owned@ == ua@,
                forall|k: int| 0 <= k < i ==> (#[trigger] cfg.whitelist@[k])@ != ua@,
            decreases cfg.whitelist@.len() - i,
        {
            if cfg.whitelist[i] == ua_owned {
                assert(listed(cfg.whitelist@, ua@)) by {
                    assert(cfg.whitelist@[i as int]@ == ua@);
                }
                return (false, "Hit User-Agent Whitelist");
            }
            i = i + 1;
        }
        if cfg.force_replace {
            return (true, "Force Replace Mode");
        }
        if cfg.enable_regex {
            if let Some(re) = &cfg.ua_regexp {
                if ua_regex_is_match(re, ua) {
                    return (true, "Hit User-Agent Pattern");
                }
            }
            return (false, "Not Hit User-Agent Pattern");
        }
        let ua_chars = chars_of(ua);
        let mut j: usize = 0;
        while j < cfg.keywords_list.len()
            invariant
                *cfg == self.config_view(),
                !listed(cfg.whitelist@, ua@),
                !cfg.force_replace,
                !cfg.enable_regex,
                j <= cfg.keywords_list@.len(),
                ua_chars@ == ua@,
                forall|k: int| 0 <= k < j ==> !contains_seq(ua@, (#[trigger] cfg.keywords_list@[k])@),
            decreases cfg.keywords_list@.len() - j,
        {
            let keyword = chars_of(cfg.keywords_list[j].as_str());
            if chars_contain(&ua_chars, &keyword) {
                assert(has_listed_part(cfg.keywords_list@, ua@)) by {
                    assert(contains_seq(ua@, cfg.keywords_list@[j as int]@));
                }
                return (true, "Hit User-Agent Keyword");
            }
            j = j + 1;
        }
        (false, "Not Hit User-Agent Keywords")
    }
}

impl HttpHandler {
    /// Rewrites the User-Agent of the request in `buf`, whose parsed head is
    /// `head`, through the cache. Returns the rewritten request when the
    /// User-Agent is changed, or the request as it was received when it is
    /// not: its head is incomplete or invalid, it has no usable User-Agent, or
    /// the User-Agent is kept.
    pub fn process_parsed(&mut self, buf: &[u8], head: &RequestHead) -> (r: HandledRequest)
        requires
            old(self).wf(),
        ensures
            final(self).wf(),
            final(self).config_view() == old(self).config_view(),
            final(self).cache_capacity() == old(self).cache_capacity(),
            (r@, final(self).cache_view()) == outcome_from_head(
                old(self).config_view(),
                old(self).cache_view(),
                old(self).cache_capacity(),
                buf@,
                head@,
            ),
            carries_decision(old(self).config_view(), buf@, head@, r@),
    {
        proof {
            lemma_outcome_keeps_cache_consistent(
                self.config_view(),
                self.cache_view(),
                self.cache_capacity(),
                buf@,
                head@,
            );
            lemma_outcome_carries_decision(
                self.config_view(),
                self.cache_view(),
                self.cache_capacity(),
                buf@,
                head@,
            );
        }
        let header_len: usize = match head.status {
            ParseStatus::Complete(n) => n,
            _ => {
                return unchanged(buf, false);
            },
        };
        let ua_index: usize = match find_user_agent(&head.headers) {
            Some(i) => i,
            None => {
                return unchanged(buf, false);
            },
        };
        assert(head@.headers[ua_index as int].1 == head.headers@[ua_index as int].value@);
        let original_ua = match utf8_to_string(head.headers[ua_index].value.as_slice()) {
            Some(ua) => ua,
            None => {
                return unchanged(buf, false);
            },
        };
        if original_ua.as_str().is_empty() {
            return unchanged(buf, false);
        }
        match self.cache.get(&original_ua) {
            Some(cached_ua) => {
                if !(cached_ua == original_ua) {
                    let bytes = rebuild_from_head(buf, head, header_len, ua_index, cached_ua.as_str());
                    return HandledRequest { bytes, modified: true, cache_hit: true };
                } else {
                    return unchanged(buf, true);
                }
            },
            None => {},
        }
        let (should_replace, _match_reason) = self.should_replace_ua(original_ua.as_str());
        if !should_replace {
            let key = original_ua.clone();
            self.cache.put(key, original_ua);
            return unchanged(buf, false);
        }
        let new_ua = Self::build_new_ua(
            original_ua.as_str(),
            self.config.user_agent.as_str(),
            &self.config.ua_regexp,
            self.config.enable_partial_replace,
        );
        let bytes = rebuild_from_head(buf, head, header_len, ua_index, new_ua.as_str());
        self.cache.put(original_ua, new_ua);
        HandledRequest { bytes, modified: true, cache_hit: false }
    }

    /// Rewrites the User-Agent of the request in `buf` through the cache.
    /// Returns the rewritten request when the User-Agent is changed, or the
    /// request as it was received when it is not: its head is incomplete or
    /// invalid, it has no usable User-Agent, or the User-Agent is kept.
    pub fn process_request(&mut self, buf: &[u8]) -> (r: HandledRequest)
        requires
            old(self).wf(),
        ensures
            final(self).wf(),
            final(self).config_view() == old(self).config_view(),
            final(self).cache_capacity() == old(self).cache_capacity(),
            (r@, final(self).cache_view()) == process_outcome(
                old(self).config_view(),
                old(self).cache_view(),
                old(self).cache_capacity(),
                buf@,
            ),
            carries_decision(old(self).config_view(), buf@, httparse_request(buf@), r@),
    {
        let head = parse_request_head(buf);
        self.process_parsed(buf, &head)
    }

    /// Handles one complete request head read from the client: counts it,
    /// rewrites it through `process_request`, and counts the outcome (a
    /// rewrite as a modification, and a cache hit as a modifying or a
    /// pass-through hit). Returns the bytes to send upstream.
    pub fn relay_request(&mut self, buf: &[u8], stats: &mut Stats) -> (out: Vec<u8>)
        requires
            old(self).wf(),
        ensures
            final(self).wf(),
            final(self).config_view() == old(self).config_view(),
            final(self).cache_capacity() == old(self).cache_capacity(),
            ({
                let (h, entries) = process_outcome(
                    old(self).config_view(),
                    old(self).cache_view(),
                    old(self).cache_capacity(),
                    buf@,
                );
                &&& final(self).cache_view() == entries
                &&& out@ == h.bytes
                &&& final(stats).http_requests == wrap_add(old(stats).http_requests, 1)
                &&& final(stats).active_connections == old(stats).active_connections
                &&& final(stats).modified_requests == if h.modified {
                    wrap_add(old(stats).modified_requests, 1)
                } else {
                    old(stats).modified_requests
                }
                &&& final(stats).cache_hits == if h.cache_hit && h.modified {
                    wrap_add(old(stats).cache_hits, 1)
                } else {
                    old(stats).cache_hits
                }
                &&& final(stats).cache_hit_no_modify == if h.cache_hit && !h.modified {
                    wrap_add(old(stats).cache_hit_no_modify, 1)
                } else {
                    old(stats).cache_hit_no_modify
                }
            }),
            carries_decision(
                old(self).config_view(),
                buf@,
                httparse_request(buf@),
                HandledView {
                    bytes: out@,
                    modified: process_outcome(
                        old(self).config_view(),
                        old(self).cache_view(),
                        old(self).cache_capacity(),
                        buf@,
                    ).0.modified,
                    cache_hit: process_outcome(
                        old(self).config_view(),
                        old(self).cache_view(),
                        old(self).cache_capacity(),
                        buf@,
                    ).0.cache_hit,
                },
            ),
    {
        stats.inc_http_requests();
        let handled = self.process_request(buf);
        if handled.modified {
            stats.inc_modified_requests();
        }
        if handled.cache_hit {
            if handled.modified {
                stats.inc_cache_hits();
            } else {
                stats.inc_cache_hit_no_modify();
            }
        }
        handled.bytes
    }
}

fn unchanged(buf: &[u8], cache_hit: bool) -> (r: HandledRequest)
    ensures
        r@ == (HandledView { bytes: buf@, modified: false, cache_hit }),
{
    let mut bytes: Vec<u8> = Vec::new();
    append_bytes(&mut bytes, buf, 0);
    assert(buf@.skip(0) =~= buf@);
    HandledRequest { bytes, modified: false, cache_hit }
}

/// The whitelist is matched by whole-string equality, and it wins: a
/// User-Agent equal to some whitelist entry is never replaced (reason "Hit
/// User-Agent Whitelist"); one equal to no entry is replaced in force mode
/// whatever it contains.
pub proof fn lemma_whitelist_is_exact(cfg: Config, ua: Seq<char>)
    ensures
        (exists|i: int| 0 <= i < cfg.whitelist@.len() && (#[trigger] cfg.whitelist@[i])@ == ua)
            ==> replace_decision(cfg, ua) == (false, "Hit User-Agent Whitelist"@),
        (forall|i: int| 0 <= i < cfg.whitelist@.len() ==> (#[trigger] cfg.whitelist@[i])@ != ua)
            && cfg.force_replace ==> replace_decision(cfg, ua) == (true, "Force Replace Mode"@),
{
}

/// In keyword mode (not whitelisted, not forced, no regex mode) a User-Agent
/// is replaced exactly when some keyword of the list, at any position in the
/// list, occurs in it as a contiguous substring.
pub proof fn lemma_keyword_mode(cfg: Config, ua: Seq<char>)
    requires
        forall|i: int| 0 <= i < cfg.whitelist@.len() ==> (#[trigger] cfg.whitelist@[i])@ != ua,
        !cfg.force_replace,
        !cfg.enable_regex,
    ensures
        replace_decision(cfg, ua).0 <==> exists|k: int, p: int|
            0 <= k < cfg.keywords_list@.len() && 0 <= p && p + cfg.keywords_list@[k]@.len()
                <= ua.len() && #[trigger] ua.subrange(p, p + cfg.keywords_list@[k]@.len())
                == (#[trigger] cfg.keywords_list@[k])@,
{
    if replace_decision(cfg, ua).0 {
        let k: int = choose|k: int| 0 <= k < cfg.keywords_list@.len() && contains_seq(ua, (#[trigger] cfg.keywords_list@[k])@);
        let p: int = choose|p: int| 0 <= p && p + cfg.keywords_list@[k]@.len() <= ua.len()
            && #[trigger] ua.subrange(p, p + cfg.keywords_list@[k]@.len()) == cfg.keywords_list@[k]@;
        assert(ua.subrange(p, p + cfg.keywords_list@[k]@.len()) == cfg.keywords_list@[k]@);
    }
    if exists|k: int, p: int|
        0 <= k < cfg.keywords_list@.len() && 0 <= p && p + cfg.keywords_list@[k]@.len()
            <= ua.len() && #[trigger] ua.subrange(p, p + cfg.keywords_list@[k]@.len())
            == (#[trigger] cfg.keywords_list@[k])@ {
        let (k, p): (int, int) = choose|k: int, p: int|
            0 <= k < cfg.keywords_list@.len() && 0 <= p && p + cfg.keywords_list@[k]@.len()
                <= ua.len() && #[trigger] ua.subrange(p, p + cfg.keywords_list@[k]@.len())
                == (#[trigger] cfg.keywords_list@[k])@;
        assert(contains_seq(ua, cfg.keywords_list@[k]@));
        assert(has_listed_part(cfg.keywords_list@, ua));
    }
}

/// The cache only ever holds the decision of the configuration: handling a
/// request through a cache in which every entry maps a User-Agent to the one
/// the configuration decides for it leaves the cache that way, and keeps its
/// shape.
pub proof fn lemma_outcome_keeps_cache_consistent(
    cfg: Config,
    entries: Seq<(Seq<char>, Seq<char>)>,
    cap: nat,
    buf: Seq<u8>,
    head: RequestHeadView,
)
    requires
        entries_wf(entries, cap),
        cache_consistent(cfg, entries),
    ensures
        entries_wf(outcome_from_head(cfg, entries, cap, buf, head).1, cap),
        cache_consistent(cfg, outcome_from_head(cfg, entries, cap, buf, head).1),
{
    match head_ua(head) {
        None => {},
        Some((n, i, ua)) => {
            let v = decided_ua(cfg, ua);
            crate::cache::lemma_entries_origin(entries, cap, ua, v);
            crate::cache::lemma_after_get_wf(entries, cap, ua);
            crate::cache::lemma_after_put_wf(entries, cap, ua, v);
            let next = outcome_from_head(cfg, entries, cap, buf, head).1;
            assert forall|k: int| 0 <= k < next.len() implies (#[trigger] next[k]).1 == decided_ua(
                cfg,
                next[k].0,
            ) by {
                if next[k] != (ua, v) {
                    let b: int = choose|b: int| 0 <= b < entries.len() && next[k] == entries[b];
                    assert(entries[b].1 == decided_ua(cfg, entries[b].0));
                }
            }
        },
    }
}

/// The cache never changes which User-Agent is sent on: with a consistent
/// cache, a request whose User-Agent the configuration changes is always
/// rewritten to carry the decided User-Agent, and one whose User-Agent it keeps
/// is either sent on as it is or written back with that same User-Agent.
pub proof fn lemma_outcome_carries_decision(
    cfg: Config,
    entries: Seq<(Seq<char>, Seq<char>)>,
    cap: nat,
    buf: Seq<u8>,
    head: RequestHeadView,
)
    requires
        entries_wf(entries, cap),
        cache_consistent(cfg, entries),
    ensures
        carries_decision(cfg, buf, head, outcome_from_head(cfg, entries, cap, buf, head).0),
{
    if let Some((n, i, ua)) = head_ua(head) {
        crate::cache::lemma_find_key(entries, ua);
        if let Some(p) = crate::cache::find_key(entries, ua) {
            assert(entries[p].1 == decided_ua(cfg, entries[p].0));
        }
    }
}


fn starts_with(data: &[u8], prefix: &Vec<u8>) -> (b: bool)
    ensures
        b == prefix@.is_prefix_of(data@),
{
    if prefix.len() > data.len() {
        return false;
    }
    let mut k: usize = 0;
    while k < prefix.len()
        invariant
            k <= prefix@.len() <= data@.len(),
            forall|j: int| 0 <= j < k ==> data@[j] == prefix@[j],
        decreases prefix@.len() - k,
    {
        if data[k] != prefix[k] {
            return false;
        }
        k = k + 1;
    }
    true
}

} // verus!
