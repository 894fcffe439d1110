use ua_mask::config::Config;
use ua_mask::manager::{
    batch_command, ipset_create_args, ipset_destroy_args, nft_create_set_args, nft_delete_set_args, flow_key, ipset_batch_input, nft_batch_args, validate_add, FirewallAddItem,
    FirewallCommand, PendingBatches, ProfileTable,
};

fn item(ip: &str, port: u16, set: &str, fw: &str, timeout: u32) -> FirewallAddItem {
    FirewallAddItem {
        ip: ip.to_string(),
        port,
        set_name: set.to_string(),
        fw_type: fw.to_string(),
        timeout,
    }
}

#[test]
fn test_port_profile_scoring() {
    let config = Config::default();
    let mut table = ProfileTable::new();

    table.handle_non_http_event(&config, "192.168.1.1", 8080, 100);
    table.handle_non_http_event(&config, "192.168.1.1", 8080, 100);
    table.handle_non_http_event(&config, "192.168.1.1", 8080, 100);

    assert!(table.get("192.168.1.1", 8080).is_some());
    let profile = table.get("192.168.1.1", 8080).unwrap();
    assert_eq!(profile.non_http_score, 3);
}

#[test]
fn test_http_event_resets_score() {
    let config = Config::default();
    let mut table = ProfileTable::new();

    table.handle_non_http_event(&config, "192.168.1.1", 8080, 100);
    table.handle_non_http_event(&config, "192.168.1.1", 8080, 100);

    table.handle_http_event(&config, "192.168.1.1", 8080, 100);

    let profile = table.get("192.168.1.1", 8080).unwrap();
    assert_eq!(profile.non_http_score, 0);
    assert!(profile.http_lock_expires.is_some());
}

#[test]
fn test_cooldown_prevents_scoring() {
    let config = Config {
        firewall_http_cooldown_period: 3_600_000,
        ..Default::default()
    };
    let mut table = ProfileTable::new();

    table.handle_http_event(&config, "192.168.1.1", 8080, 100);

    table.handle_non_http_event(&config, "192.168.1.1", 8080, 100);
    table.handle_non_http_event(&config, "192.168.1.1", 8080, 100);

    let profile = table.get("192.168.1.1", 8080).unwrap();
    assert_eq!(profile.non_http_score, 0);
}

#[test]
fn threshold_starts_one_decision_and_finalize_adds() {
    let config = Config { firewall_nonhttp_threshold: 3, ..Default::default() };
    let mut table = ProfileTable::new();
    assert!(!table.handle_non_http_event(&config, "10.0.0.1", 443, 1));
    assert!(!table.handle_non_http_event(&config, "10.0.0.1", 443, 2));
    assert!(table.handle_non_http_event(&config, "10.0.0.1", 443, 3));
    assert!(!table.handle_non_http_event(&config, "10.0.0.1", 443, 4));
    assert!(table.get("10.0.0.1", 443).unwrap().decision_pending);
    let add = table.finalize_decision(&config, "10.0.0.1", 443, 60_000).unwrap();
    assert_eq!(add.ip, "10.0.0.1");
    assert_eq!(add.port, 443);
    assert_eq!(add.set_name, "uamask_bypass");
    assert_eq!(add.fw_type, "ipset");
    assert_eq!(add.timeout, 28800);
    assert!(table.get("10.0.0.1", 443).is_none());
}

#[test]
fn http_event_vetoes_pending_decision() {
    let config = Config { firewall_nonhttp_threshold: 1, ..Default::default() };
    let mut table = ProfileTable::new();
    assert!(table.handle_non_http_event(&config, "10.0.0.2", 80, 10));
    assert!(table.handle_http_event(&config, "10.0.0.2", 80, 20));
    // inside the cooldown the event changes nothing
    assert!(!table.handle_http_event(&config, "10.0.0.2", 80, 30));
    assert!(table.finalize_decision(&config, "10.0.0.2", 80, 40).is_none());
    let p = table.get("10.0.0.2", 80).unwrap();
    assert!(!p.decision_pending);
    assert_eq!(p.http_lock_expires, Some(20 + 1_800_000));
}

#[test]
fn finalize_without_profile_or_after_cooldown() {
    let config = Config { firewall_nonhttp_threshold: 1, firewall_http_cooldown_period: 100, ..Default::default() };
    let mut table = ProfileTable::new();
    assert!(table.finalize_decision(&config, "1.1.1.1", 1, 0).is_none());
    table.handle_http_event(&config, "1.1.1.1", 1, 0);
    assert!(table.handle_non_http_event(&config, "1.1.1.1", 1, 100));
    assert!(table.finalize_decision(&config, "1.1.1.1", 1, 100).is_some());
}

#[test]
fn cleanup_keeps_pending_and_cooling() {
    let config = Config { firewall_nonhttp_threshold: 1, ..Default::default() };
    let mut table = ProfileTable::new();
    table.handle_non_http_event(&config, "1.0.0.1", 1, 0); // pending
    table.handle_http_event(&config, "1.0.0.2", 2, 0); // cooling
    let low = Config { firewall_nonhttp_threshold: 5, ..Default::default() };
    table.handle_non_http_event(&low, "1.0.0.3", 3, 0); // stale
    table.handle_non_http_event(&low, "1.0.0.4", 4, 900); // recent
    let cleaned = table.cleanup_profiles(1_000, 500);
    assert_eq!(cleaned, 1);
    assert!(table.get("1.0.0.1", 1).is_some());
    assert!(table.get("1.0.0.2", 2).is_some());
    assert!(table.get("1.0.0.3", 3).is_none());
    assert!(table.get("1.0.0.4", 4).is_some());
}

#[test]
fn flow_keys() {
    assert_eq!(flow_key("192.168.1.1", 8080), "192.168.1.1:8080");
    assert_eq!(flow_key("::1", 0), "::1:0");
}

#[test]
fn validate_add_checks() {
    let ok = validate_add("10.0.0.1", 80, "my_set1", "nft", 60, true).unwrap();
    assert_eq!(ok.ip, "10.0.0.1");
    assert_eq!(ok.set_name, "my_set1");
    assert_eq!(ok.fw_type, "nft");
    assert_eq!(ok.timeout, 60);
    assert!(validate_add("", 80, "s", "nft", 0, true).is_none());
    assert!(validate_add("10.0.0.1", 80, "", "nft", 0, true).is_none());
    assert!(validate_add("bogus", 80, "s", "nft", 0, false).is_none());
    assert!(validate_add("10.0.0.1", 80, "bad-name", "nft", 0, true).is_none());
    assert!(validate_add("10.0.0.1", 80, "bad name", "nft", 0, true).is_none());
}

#[test]
fn batches_dedup_and_flush() {
    let mut b = PendingBatches::new(2);
    assert!(b.is_empty());
    assert!(b.push(item("1.1.1.1", 1, "s", "nft", 0)).is_none());
    assert!(b.push(item("1.1.1.1", 1, "s", "nft", 5)).is_none());
    assert!(b.push(item("2.2.2.2", 2, "t", "ipset", 0)).is_none());
    let flushed = b.push(item("3.3.3.3", 3, "s", "nft", 0)).unwrap();
    assert!(b.is_empty());
    assert_eq!(flushed.len(), 2);
    assert_eq!(flushed[0].key, "nft:s");
    assert_eq!(flushed[0].items.len(), 2);
    assert_eq!(flushed[0].items[0].0, "1.1.1.1:1");
    assert_eq!(flushed[0].items[0].1.timeout, 5);
    assert_eq!(flushed[1].key, "ipset:t");
}

#[test]
fn take_all_empties() {
    let mut b = PendingBatches::new(200);
    b.push(item("1.1.1.1", 1, "s", "nft", 0));
    let all = b.take_all();
    assert_eq!(all.len(), 1);
    assert!(b.is_empty());
}

#[test]
fn nft_and_ipset_commands() {
    let items = vec![
        ("1.1.1.1:80".to_string(), item("1.1.1.1", 80, "s", "nft", 0)),
        ("2.2.2.2:443".to_string(), item("2.2.2.2", 443, "s", "nft", 30)),
    ];
    assert_eq!(
        nft_batch_args("s", &items),
        vec!["add", "element", "inet", "fw4", "s", "{", "1.1.1.1 . 80, 2.2.2.2 . 443 timeout 30s", "}"]
            .into_iter()
            .map(String::from)
            .collect::<Vec<_>>()
    );
    assert_eq!(
        ipset_batch_input("set", &items),
        "add set 1.1.1.1,80 -exist\nadd set 2.2.2.2,443 timeout 30 -exist\n"
    );
}

#[test]
fn batch_command_by_first_item() {
    let mut b = PendingBatches::new(1);
    let batches = b.push(item("1.1.1.1", 80, "s", "nft", 0)).unwrap();
    match batch_command(&batches[0]).unwrap() {
        FirewallCommand::Nft { set_name, args, .. } => {
            assert_eq!(set_name, "s");
            assert_eq!(args[6], "1.1.1.1 . 80");
        }
        _ => panic!("expected nft"),
    }
    let batches = b.push(item("1.1.1.1", 80, "p", "ipset", 7)).unwrap();
    match batch_command(&batches[0]).unwrap() {
        FirewallCommand::Ipset { input, .. } => {
            assert_eq!(input, "add p 1.1.1.1,80 timeout 7 -exist\n");
        }
        _ => panic!("expected ipset"),
    }
}

#[test]
fn set_command_args() {
    assert_eq!(
        ipset_create_args("s", 28800),
        vec!["create", "s", "hash:ip,port", "timeout", "28800", "-exist"]
    );
    assert_eq!(ipset_destroy_args("s"), vec!["destroy", "s", "-exist"]);
    assert_eq!(
        nft_create_set_args("s", -5),
        vec![
            "add", "set", "inet", "fw4", "s", "{", "type", "ipv4_addr . inet_service", ";",
            "timeout", "-5s", ";", "}"
        ]
    );
    assert_eq!(nft_delete_set_args("s"), vec!["delete", "set", "inet", "fw4", "s"]);
}
