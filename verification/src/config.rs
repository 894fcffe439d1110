//! Command-line arguments, the validated configuration built from them, and the
//! comma-separated list parser they use.

use vstd::prelude::*;

use crate::matcher::{regex_compiles, UaRegex};
use crate::text::{
    chars_of, concat_str, i64_to_decimal, split_on, string_from_chars,
    trim, trim_chars, decimal_int, is_whitespace, lemma_trim,
};

verus! {

/// The comma-separated list in `input`: its pieces trimmed of surrounding
/// whitespace, empty ones left out, in order.
pub open spec fn comma_list(input: Seq<char>) -> Seq<Seq<char>> {
    if input.len() == 0 {
        Seq::empty()
    } else {
        nonempty_trimmed(split_on(input, ','))
    }
}

/// The trimmed pieces of `pieces` that are not empty, in order.
pub open spec fn nonempty_trimmed(pieces: Seq<Seq<char>>) -> Seq<Seq<char>>
    decreases pieces.len(),
{
    if pieces.len() == 0 {
        Seq::empty()
    } else {
        let rest = nonempty_trimmed(pieces.drop_last());
        let t = trim(pieces.last());
        if t.len() == 0 {
            rest
        } else {
            rest.push(t)
        }
    }
}

/// Every entry of a parsed comma-separated list is non-empty and neither starts
/// nor ends with whitespace.
pub proof fn lemma_comma_list_entries(input: Seq<char>)
    ensures
        forall|i: int|
            0 <= i < comma_list(input).len() ==> {
                let e = #[trigger] comma_list(input)[i];
                &&& e.len() > 0
                &&& !is_whitespace(e[0])
                &&& !is_whitespace(e.last())
            },
{
    if input.len() > 0 {
        lemma_nonempty_trimmed_entries(split_on(input, ','));
    }
}

proof fn lemma_nonempty_trimmed_entries(pieces: Seq<Seq<char>>)
    ensures
        forall|i: int|
            0 <= i < nonempty_trimmed(pieces).len() ==> {
                let e = #[trigger] nonempty_trimmed(pieces)[i];
                &&& e.len() > 0
                &&& !is_whitespace(e[0])
                &&& !is_whitespace(e.last())
            },
    decreases pieces.len(),
{
    if pieces.len() > 0 {
        lemma_nonempty_trimmed_entries(pieces.drop_last());
        lemma_trim(pieces.last());
        let rest = nonempty_trimmed(pieces.drop_last());
        let all = nonempty_trimmed(pieces);
        assert forall|i: int| 0 <= i < all.len() implies {
            let e = #[trigger] all[i];
            &&& e.len() > 0
            &&& !is_whitespace(e[0])
            &&& !is_whitespace(e.last())
        } by {
            if i < rest.len() {
                assert(all[i] == rest[i]);
            }
        }
    }
}

/// The views of a list of strings.
pub open spec fn string_views(v: Seq<String>) -> Seq<Seq<char>> {
    v.map_values(|s: String| s@)
}

fn push_trimmed(result: &mut Vec<String>, piece: &Vec<char>)
    ensures
        string_views(final(result)@) == if trim(piece@).len() == 0 {
            string_views(old(result)@)
        } else {
            string_views(old(result)@).push(trim(piece@))
        },
{
    let t = trim_chars(piece);
    if t.len() > 0 {
        let s = string_from_chars(&t);
        result.push(s);
        assert(string_views(final(result)@) =~= string_views(old(result)@).push(trim(piece@)));
    }
}

/// Splits `input` at commas, trims each piece and drops the empty ones.
pub fn parse_comma_list(input: &str) -> (r: Vec<String>)
    ensures
        string_views(r@) == comma_list(input@),
{
    let mut result: Vec<String> = Vec::new();
    if input.is_empty() {
        assert(string_views(result@) =~= Seq::<Seq<char>>::empty());
        return result;
    }
    let chars = chars_of(input);
    let n: usize = chars.len();
    let mut cur: Vec<char> = Vec::new();
    let mut i: usize = 0;
    proof {
        assert(chars@.take(0) =~= Seq::<char>::empty());
        assert(string_views(result@) =~= Seq::<Seq<char>>::empty());
    }
    while i < n
        invariant
            i <= n,
            n == chars@.len(),
            chars@ == input@,
            split_on(chars@.take(i as int), ',').len() >= 1,
            cur@ == split_on(chars@.take(i as int), ',').last(),
            string_views(result@) == nonempty_trimmed(
                split_on(chars@.take(i as int), ',').drop_last(),
            ),
        decreases n - i,
    {
        let c = chars[i];
        let ghost prev = split_on(chars@.take(i as int), ',');
        proof {
            assert(chars@.take(i + 1).drop_last() =~= chars@.take(i as int));
        }
        if c == ',' {
            push_trimmed(&mut result, &cur);
            cur = Vec::new();
            proof {
                let next = split_on(chars@.take(i + 1), ',');
                assert(next == prev.push(Seq::<char>::empty()));
                assert(next.drop_last() =~= prev);
            }
        } else {
            cur.push(c);
            proof {
                let next = split_on(chars@.take(i + 1), ',');
                assert(next.drop_last() =~= prev.drop_last());
            }
        }
        i = i + 1;
    }
    proof {
        assert(chars@.take(n as int) =~= input@);
    }
    push_trimmed(&mut result, &cur);
    result
}

/// Command-line arguments, as given.
pub struct Args {
    /// User-Agent string to replace with
    pub user_agent: String,
    /// TPROXY listen port
    pub port: u16,
    /// Log level (debug, info, warn, error)
    pub loglevel: String,
    /// Show version
    pub version: bool,
    /// Log file path
    pub log: String,
    /// Comma-separated User-Agent whitelist
    pub whitelist: String,
    /// Force replace User-Agent
    pub force: bool,
    /// Enable Regex matching mode
    pub enable_regex: bool,
    /// Comma-separated User-Agent keywords
    pub keywords: String,
    /// UA-Pattern (Regex)
    pub pattern: String,
    /// Enable Regex Partial Replace
    pub partial_replace: bool,
    /// LRU cache size
    pub cache_size: i32,
    /// I/O buffer size (bytes)
    pub buffer_size: i32,
    /// Worker pool size
    pub pool_size: i32,
}

} // verus!

verus! {

/// Application configuration.
pub struct Config {
    pub user_agent: String,
    pub port: u16,
    pub log_level: String,
    pub show_version: bool,
    pub log_file: String,
    pub whitelist: Vec<String>,
    pub force_replace: bool,
    pub enable_regex: bool,
    pub enable_partial_replace: bool,
    pub keywords_list: Vec<String>,
    pub ua_pattern: String,
    pub ua_regexp: Option<UaRegex>,
    pub cache_size: i32,
    pub buffer_size: i32,
    pub pool_size: i32,
    /// Kind of firewall set that offloaded flows are added to (`nft` or `ipset`).
    pub firewall_type: String,
    /// Name of the firewall set that offloaded flows are added to.
    pub firewall_ipset_name: String,
    /// Timeout, in seconds, of an entry added to the firewall set.
    pub firewall_timeout: i32,
    /// Number of non-HTTP events after which a flow is considered for offload.
    pub firewall_nonhttp_threshold: i32,
    /// Delay, in milliseconds, between reaching the threshold and the decision.
    pub firewall_decision_delay: u64,
    /// Cooldown, in milliseconds, during which an HTTP event shields a flow.
    pub firewall_http_cooldown_period: u64,
}

/// The firewall settings that a configuration starts with.
pub open spec fn has_firewall_defaults(cfg: Config) -> bool {
    &&& cfg.firewall_type@ == "ipset"@
    &&& cfg.firewall_ipset_name@ == "uamask_bypass"@
    &&& cfg.firewall_timeout == 28800
    &&& cfg.firewall_nonhttp_threshold == 5
    &&& cfg.firewall_decision_delay == 60_000
    &&& cfg.firewall_http_cooldown_period == 1_800_000
}

/// The error `validate` reports for these values, if any.
pub open spec fn validation_error(port: u16, buffer_size: i32, cache_size: i32) -> Option<
    Seq<char>,
> {
    if port == 0 {
        Some("invalid port: "@ + decimal_int(port as int))
    } else if buffer_size < 1024 || buffer_size > 65536 {
        Some("invalid buffer size: "@ + decimal_int(buffer_size as int))
    } else if cache_size < 0 {
        Some("invalid cache size: "@ + decimal_int(cache_size as int))
    } else {
        None
    }
}

/// The pattern compiled in regex mode: the user's pattern, case-insensitive.
pub open spec fn case_insensitive(pattern: Seq<char>) -> Seq<char> {
    "(?i)"@ + pattern
}

/// The text that every invalid-pattern error starts with.
pub open spec fn regex_error_prefix() -> Seq<char> {
    "invalid User-Agent Regex Pattern: "@
}

/// The matching-mode fields of `cfg` as `process_matching_mode` sets them from
/// the keyword list and pattern given, when the pattern compiles.
pub open spec fn matching_mode_of(cfg: Config, keywords: Seq<char>, pattern: Seq<char>) -> bool {
    if cfg.enable_regex {
        &&& cfg.ua_pattern@ == case_insensitive(pattern)
        &&& cfg.ua_regexp matches Some(re) && re@ == cfg.ua_pattern@
    } else {
        &&& cfg.ua_pattern@ == Seq::<char>::empty()
        &&& cfg.ua_regexp is None
        &&& string_views(cfg.keywords_list@) == if cfg.force_replace {
            Seq::<Seq<char>>::empty()
        } else {
            comma_list(keywords)
        }
    }
}

/// `cfg` is the configuration `from_args` builds from `args`.
pub open spec fn built_from(cfg: Config, args: Args) -> bool {
    &&& cfg.user_agent@ == args.user_agent@
    &&& cfg.port == args.port
    &&& cfg.log_level@ == args.loglevel@
    &&& cfg.show_version == args.version
    &&& cfg.log_file@ == args.log@
    &&& string_views(cfg.whitelist@) == comma_list(args.whitelist@)
    &&& cfg.force_replace == args.force
    &&& cfg.enable_regex == args.enable_regex
    &&& cfg.enable_partial_replace == args.partial_replace
    &&& cfg.cache_size == args.cache_size
    &&& cfg.buffer_size == args.buffer_size
    &&& cfg.pool_size == args.pool_size
    &&& cfg.enable_regex ==> cfg.keywords_list@.len() == 0
    &&& matching_mode_of(cfg, args.keywords@, args.pattern@)
    &&& has_firewall_defaults(cfg)
}

fn error_with_number(prefix: &str, value: i64) -> (s: String)
    requires
        value > i64::MIN,
    ensures
        s@ == prefix@ + decimal_int(value as int),
{
    let digits = i64_to_decimal(value);
    concat_str(prefix, digits.as_str())
}

impl Config {
    /// Checks the port, buffer size and cache size.
    pub fn validate(&self) -> (r: Result<(), String>)
        ensures
            match r {
                Ok(()) => validation_error(self.port, self.buffer_size, self.cache_size) is None,
                Err(e) => validation_error(self.port, self.buffer_size, self.cache_size) == Some(
                    e@,
                ),
            },
    {
        if self.port == 0 {
            return Err(error_with_number("invalid port: ", self.port as i64));
        }
        if self.buffer_size < 1024 || self.buffer_size > 65536 {
            return Err(error_with_number("invalid buffer size: ", self.buffer_size as i64));
        }
        if self.cache_size < 0 {
            return Err(error_with_number("invalid cache size: ", self.cache_size as i64));
        }
        Ok(())
    }

    /// Sets up the matching mode: compiles the case-insensitive pattern in regex
    /// mode, or parses the keyword list in keyword mode (unless every
    /// User-Agent is replaced anyway).
    fn process_matching_mode(&mut self, keywords: &str, pattern: &str) -> (r: Result<(), String>)
        requires
            old(self).ua_pattern@ == Seq::<char>::empty(),
            old(self).ua_regexp is None,
            old(self).keywords_list@.len() == 0,
        ensures
            r is Ok <==> (old(self).enable_regex ==> regex_compiles(case_insensitive(pattern@))),
            r matches Err(e) ==> e@.len() >= regex_error_prefix().len() && e@.take(
                regex_error_prefix().len() as int,
            ) == regex_error_prefix(),
            r is Ok ==> matching_mode_of(*final(self), keywords@, pattern@),
            final(self).enable_regex ==> final(self).keywords_list@.len() == 0,
            final(self).user_agent == old(self).user_agent,
            final(self).port == old(self).port,
            final(self).log_level == old(self).log_level,
            final(self).show_version == old(self).show_version,
            final(self).log_file == old(self).log_file,
            final(self).whitelist == old(self).whitelist,
            final(self).force_replace == old(self).force_replace,
            final(self).enable_regex == old(self).enable_regex,
            final(self).enable_partial_replace == old(self).enable_partial_replace,
            final(self).cache_size == old(self).cache_size,
            final(self).buffer_size == old(self).buffer_size,
            final(self).pool_size == old(self).pool_size,
            final(self).firewall_type == old(self).firewall_type,
            final(self).firewall_ipset_name == old(self).firewall_ipset_name,
            final(self).firewall_timeout == old(self).firewall_timeout,
            final(self).firewall_nonhttp_threshold == old(self).firewall_nonhttp_threshold,
            final(self).firewall_decision_delay == old(self).firewall_decision_delay,
            final(self).firewall_http_cooldown_period == old(
                self,
            ).firewall_http_cooldown_period,
    {
        if self.enable_regex {
            self.ua_pattern = concat_str("(?i)", pattern);
            match UaRegex::new(self.ua_pattern.as_str()) {
                Ok(re) => {
                    self.ua_regexp = Some(re);
                },
                Err(e) => {
                    let msg = concat_str("invalid User-Agent Regex Pattern: ", e.as_str());
                    proof {
                        assert(msg@.take(regex_error_prefix().len() as int) =~= regex_error_prefix());
                    }
                    return Err(msg);
                },
            }
        } else if !self.force_replace {
            self.keywords_list = parse_comma_list(keywords);
        } else {
            assert(string_views(self.keywords_list@) =~= Seq::<Seq<char>>::empty());
        }
        Ok(())
    }

    /// Builds and checks the configuration from the command-line arguments.
    pub fn from_args(args: Args) -> (r: Result<Config, String>)
        ensures
            r is Ok <==> (validation_error(args.port, args.buffer_size, args.cache_size) is None
                && (args.enable_regex ==> regex_compiles(case_insensitive(args.pattern@)))),
            r matches Err(e) ==> match validation_error(
                args.port,
                args.buffer_size,
                args.cache_size,
            ) {
                Some(m) => e@ == m,
                None => e@.len() >= regex_error_prefix().len() && e@.take(
                    regex_error_prefix().len() as int,
                ) == regex_error_prefix(),
            },
            r matches Ok(cfg) ==> built_from(cfg, args),
    {
        let whitelist = parse_comma_list(args.whitelist.as_str());
        let mut cfg = Config {
            user_agent: args.user_agent,
            port: args.port,
            log_level: args.loglevel,
            show_version: args.version,
            log_file: args.log,
            whitelist,
            force_replace: args.force,
            enable_regex: args.enable_regex,
            enable_partial_replace: args.partial_replace,
            keywords_list: Vec::new(),
            ua_pattern: String::new(),
            ua_regexp: None,
            cache_size: args.cache_size,
            buffer_size: args.buffer_size,
            pool_size: args.pool_size,
            firewall_type: "ipset".to_owned(),
            firewall_ipset_name: "uamask_bypass".to_owned(),
            firewall_timeout: 28800,
            firewall_nonhttp_threshold: 5,
            firewall_decision_delay: 60_000,
            firewall_http_cooldown_period: 1_800_000,
        };
        match cfg.validate() {
            Ok(()) => {},
            Err(e) => {
                return Err(e);
            },
        }
        match cfg.process_matching_mode(args.keywords.as_str(), args.pattern.as_str()) {
            Ok(()) => {},
            Err(e) => {
                return Err(e);
            },
        }
        Ok(cfg)
    }
}

impl Default for Config {
    fn default() -> (cfg: Self)
        ensures
            cfg.user_agent@ == "FFF"@,
            cfg.port == 12032,
            cfg.log_level@ == "info"@,
            !cfg.show_version,
            cfg.log_file@ == Seq::<char>::empty(),
            cfg.whitelist@.len() == 0,
            !cfg.force_replace,
            !cfg.enable_regex,
            !cfg.enable_partial_replace,
            cfg.keywords_list@.len() == 0,
            cfg.ua_pattern@ == Seq::<char>::empty(),
            cfg.ua_regexp is None,
            cfg.cache_size == 1000,
            cfg.buffer_size == 8192,
            cfg.pool_size == 0,
            has_firewall_defaults(cfg),
    {
        Config {
            user_agent: "FFF".to_owned(),
            port: 12032,
            log_level: "info".to_owned(),
            show_version: false,
            log_file: String::new(),
            whitelist: Vec::new(),
            force_replace: false,
            enable_regex: false,
            enable_partial_replace: false,
            keywords_list: Vec::new(),
            ua_pattern: String::new(),
            ua_regexp: None,
            cache_size: 1000,
            buffer_size: 8192,
            pool_size: 0,
            firewall_type: "ipset".to_owned(),
            firewall_ipset_name: "uamask_bypass".to_owned(),
            firewall_timeout: 28800,
            firewall_nonhttp_threshold: 5,
            firewall_decision_delay: 60_000,
            firewall_http_cooldown_period: 1_800_000,
        }
    }
}

} // verus!
