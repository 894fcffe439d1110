use ua_mask::stats::Stats;

#[test]
fn test_stats_new() {
    let stats = Stats::new();
    assert_eq!(stats.active_connections, 0);
    assert_eq!(stats.http_requests, 0);
    assert_eq!(stats.modified_requests, 0);
    assert_eq!(stats.cache_hits, 0);
    assert_eq!(stats.cache_hit_no_modify, 0);
}

#[test]
fn test_stats_increment() {
    let mut stats = Stats::new();

    stats.add_active_connections(5);
    assert_eq!(stats.active_connections, 5);

    stats.sub_active_connections(2);
    assert_eq!(stats.active_connections, 3);

    stats.inc_http_requests();
    stats.inc_http_requests();
    assert_eq!(stats.http_requests, 2);

    stats.inc_modified_requests();
    assert_eq!(stats.modified_requests, 1);

    stats.inc_cache_hits();
    stats.inc_cache_hits();
    stats.inc_cache_hits();
    assert_eq!(stats.cache_hits, 3);

    stats.inc_cache_hit_no_modify();
    assert_eq!(stats.cache_hit_no_modify, 1);
}

#[test]
fn stats_counters_wrap() {
    let mut stats = Stats::new();
    stats.sub_active_connections(1);
    assert_eq!(stats.active_connections, u64::MAX);
    stats.add_active_connections(2);
    assert_eq!(stats.active_connections, 1);
}

#[test]
fn stats_report_figures() {
    let mut stats = Stats::default();
    for _ in 0..10 {
        stats.inc_http_requests();
    }
    for _ in 0..4 {
        stats.inc_modified_requests();
    }
    stats.inc_cache_hits();
    stats.inc_cache_hit_no_modify();
    stats.inc_cache_hit_no_modify();
    let r = stats.report();
    assert_eq!(r.total_requests, 10);
    assert_eq!(r.successful_modifications, 4);
    assert_eq!(r.direct_passthrough, 6);
    assert_eq!(r.total_cache_hits, 3);
    assert_eq!(r.rule_processing, 7);
    assert_eq!(r.cache_hit_modify, 1);
    assert_eq!(r.cache_hit_pass, 2);

    let mut few = Stats::new();
    few.inc_modified_requests();
    few.inc_cache_hits();
    let r = few.report();
    assert_eq!(r.direct_passthrough, 0);
    assert_eq!(r.rule_processing, 0);
}

#[test]
fn stats_report_text() {
    let stats = Stats {
        active_connections: 3,
        http_requests: 10,
        modified_requests: 4,
        cache_hits: 2,
        cache_hit_no_modify: 3,
    };
    let text = stats.report().to_text("1.00", "50.00");
    assert_eq!(
        text,
        "current_connections:3\ntotal_requests:10\nrps:1.00\nsuccessful_modifications:4\n\
         direct_passthrough:6\nrule_processing:5\ncache_hit_modify:2\ncache_hit_pass:3\n\
         total_cache_ratio:50.00\n"
    );
}
