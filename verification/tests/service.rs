use std::time::{SystemTime, UNIX_EPOCH};

use m0untain::service::{
    apply_plan, asks_to_stop, current_status, default_deny_enabled, paths_to_resolve,
    remote_match, remote_match_from_target, rule_in_active_scope, rule_is_active,
    state_path_argument, sublayer_added, AppSettings, LoopAction, Origin, PersistentState, Policy,
    PolicyLoop, ProgramRule, RuleProfile, RuleTarget, ServiceMode, ServiceStatus, SERVICE_NAME,
};
use m0untain::wfp::filter::{Condition, FilterAction, Layer};
use m0untain::wfp::RemoteMatch;
use m0untain::{IpAddr, Ipv4Addr, Ipv6Addr};

fn now_ms() -> u64 {
    SystemTime::now().duration_since(UNIX_EPOCH).unwrap().as_millis() as u64
}

#[test]
fn default_deny_can_be_enabled_by_active_profile() {
    let state = PersistentState {
        settings: AppSettings {
            active_profile_id: "lockdown".to_string(),
            default_deny_enabled: false,
        },
        profiles: vec![RuleProfile {
            id: "lockdown".to_string(),
            default_deny: true,
        }],
        ..PersistentState::default()
    };

    assert!(default_deny_enabled(&state));
}

#[test]
fn expired_rules_are_not_active() {
    let mut rule = ProgramRule {
        expires_at_ms: Some(now_ms().saturating_sub(1)),
        ..ProgramRule::default()
    };
    assert!(!rule_is_active(&rule, now_ms()));
    rule.expires_at_ms = None;
    assert!(rule_is_active(&rule, now_ms()));
}

fn rule(decision: &str) -> ProgramRule {
    ProgramRule {
        app_path: "C:\\demo.exe".to_string(),
        app_id: vec![1, 2, 3],
        decision: decision.to_string(),
        ..ProgramRule::default()
    }
}

fn target(kind: &str, value: &str, port: Option<u16>) -> Option<RuleTarget> {
    Some(RuleTarget { kind: kind.to_string(), value: value.to_string(), port })
}

fn state_with(rules: Vec<ProgramRule>) -> PersistentState {
    let mut s = PersistentState::default();
    for (i, r) in rules.into_iter().enumerate() {
        s.rules.insert(format!("rule {i}"), r);
    }
    s
}

fn nothing_found(s: &PersistentState) -> Vec<Vec<u8>> {
    (0..s.rules.len()).map(|_| Vec::new()).collect()
}

#[test]
fn default_deny_follows_settings_then_first_profile() {
    let mut s = PersistentState::default();
    assert!(!default_deny_enabled(&s));
    s.settings.default_deny_enabled = true;
    assert!(default_deny_enabled(&s));
    s.settings.default_deny_enabled = false;
    s.settings.active_profile_id = "x".to_string();
    s.profiles.push(RuleProfile { id: "x".to_string(), default_deny: false });
    s.profiles.push(RuleProfile { id: "x".to_string(), default_deny: true });
    assert!(!default_deny_enabled(&s));
}

#[test]
fn rules_end_at_their_deadline() {
    let mut r = rule("allow");
    r.expires_at_ms = Some(100);
    assert!(rule_is_active(&r, 99));
    assert!(!rule_is_active(&r, 100));
}

#[test]
fn scope_and_direction() {
    let mut r = rule("allow");
    assert!(rule_in_active_scope(&r, "home"));
    r.profile_id = "global".to_string();
    assert!(rule_in_active_scope(&r, "home"));
    r.profile_id = "work".to_string();
    assert!(!rule_in_active_scope(&r, "home"));
    assert!(rule_in_active_scope(&r, "work"));
    assert!(r.direction_matches_outbound());
    r.direction = "both".to_string();
    assert!(r.direction_matches_outbound());
    r.direction = "outbound".to_string();
    assert!(r.direction_matches_outbound());
    r.direction = "inbound".to_string();
    assert!(!r.direction_matches_outbound());
}

#[test]
fn targets_are_read() {
    let ip = IpAddr::V4(Ipv4Addr::new(10, 0, 0, 0));
    assert_eq!(remote_match_from_target(&None), Ok(None));
    assert_eq!(remote_match_from_target(&target("ANY", "x", None)), Ok(None));
    assert_eq!(remote_match_from_target(&target("domain", "example.org", None)), Ok(None));
    assert_eq!(
        remote_match_from_target(&target("IP", "10.0.0.0", None)),
        Ok(Some(RemoteMatch::Ip(ip)))
    );
    assert_eq!(
        remote_match_from_target(&target("Cidr", "10.0.0.0/8", None)),
        Ok(Some(RemoteMatch::Cidr { network: ip, prefix: 8 }))
    );
    assert_eq!(remote_match("ip", "nope"), Err("invalid target IP".to_string()));
    assert_eq!(remote_match("cidr", "10.0.0.0"), Err("invalid CIDR target".to_string()));
    assert_eq!(remote_match("cidr", "10.0.0/8"), Err("invalid CIDR network".to_string()));
    assert_eq!(remote_match("cidr", "10.0.0.0/x"), Err("invalid CIDR prefix".to_string()));
    assert_eq!(remote_match("cidr", "10.0.0.0/300"), Err("invalid CIDR prefix".to_string()));
    assert_eq!(remote_match("IP", "10.0.0.0"), Ok(None));
}

#[test]
fn allow_rule_is_permitted_at_both_layers() {
    let s = state_with(vec![rule("allow")]);
    let p = apply_plan(&s, &nothing_found(&s), 0);
    assert_eq!(p.error, None);
    assert!(p.default_deny.is_empty());
    assert_eq!(p.rules.len(), 2);
    assert_eq!(p.rules[0].layer, Layer::ConnectV4);
    assert_eq!(p.rules[1].layer, Layer::ConnectV6);
    for f in &p.rules {
        assert_eq!(f.action, FilterAction::Permit);
        assert_eq!(f.weight, 14);
        assert_eq!(f.conditions, vec![Condition::AppId(vec![1, 2, 3])]);
        assert_eq!(f.name, "m0untain service app policy");
    }
}

#[test]
fn block_rule_carries_all_conditions() {
    let mut r = rule("quarantine");
    r.protocol = "udp".to_string();
    r.target = target("cidr", "10.1.0.0/16", Some(53));
    let s = state_with(vec![r]);
    let p = apply_plan(&s, &nothing_found(&s), 0);
    assert_eq!(p.rules.len(), 1);
    assert_eq!(p.rules[0].layer, Layer::ConnectV4);
    assert_eq!(p.rules[0].action, FilterAction::Block);
    assert_eq!(p.rules[0].weight, 15);
    assert_eq!(
        p.rules[0].conditions,
        vec![
            Condition::AppId(vec![1, 2, 3]),
            Condition::Protocol(17),
            Condition::RemoteV4Net { addr: 0x0a01_0000, mask: 0xffff_0000 },
            Condition::RemotePort(53),
        ]
    );
    let mut r = rule("block");
    r.protocol = "tcp".to_string();
    r.target = target("cidr", "2001:db8::/32", None);
    let s = state_with(vec![r]);
    let p = apply_plan(&s, &nothing_found(&s), 0);
    assert_eq!(p.rules.len(), 1);
    assert_eq!(p.rules[0].layer, Layer::ConnectV6);
    assert_eq!(
        p.rules[0].conditions,
        vec![
            Condition::AppId(vec![1, 2, 3]),
            Condition::Protocol(6),
            Condition::RemoteV6Net { addr: Ipv6Addr { bits: 0x2001_0db8 << 96 }, prefix: 32 },
        ]
    );
}

#[test]
fn inactive_rules_add_nothing() {
    let mut expired = rule("block");
    expired.expires_at_ms = Some(10);
    let mut elsewhere = rule("block");
    elsewhere.profile_id = "work".to_string();
    let mut inbound = rule("block");
    inbound.direction = "inbound".to_string();
    let s = state_with(vec![expired, elsewhere, inbound, rule("later")]);
    let p = apply_plan(&s, &nothing_found(&s), 10);
    assert!(p.rules.is_empty());
    assert_eq!(p.error, None);
}

#[test]
fn identifiers_are_found_for_paths() {
    let mut r = rule("block");
    r.app_id = Vec::new();
    let mut unknown = rule("allow");
    unknown.app_id = Vec::new();
    unknown.app_path = String::new();
    let s = state_with(vec![r, unknown, rule("allow")]);
    assert_eq!(
        paths_to_resolve(&s, 0),
        vec![Some("C:\\demo.exe".to_string()), None, None]
    );
    let p = apply_plan(&s, &vec![vec![9, 9], vec![7], Vec::new()], 0);
    assert_eq!(p.rules.len(), 4);
    assert_eq!(p.rules[0].conditions, vec![Condition::AppId(vec![9, 9])]);
    assert_eq!(p.rules[2].conditions, vec![Condition::AppId(vec![1, 2, 3])]);
    let p = apply_plan(&s, &nothing_found(&s), 0);
    assert_eq!(p.rules.len(), 2);
}

#[test]
fn rule_in_error_stops_the_plan() {
    let mut bad = rule("block");
    bad.target = target("ip", "nope", None);
    let mut s = state_with(vec![rule("allow"), bad, rule("block")]);
    s.settings.default_deny_enabled = true;
    let p = apply_plan(&s, &nothing_found(&s), 0);
    assert_eq!(p.rules.len(), 2);
    assert_eq!(p.error, Some("invalid target IP".to_string()));
    assert!(p.default_deny.is_empty());
}

#[test]
fn default_deny_comes_last_and_weighs_least() {
    let mut s = state_with(vec![rule("allow"), rule("block")]);
    s.settings.default_deny_enabled = true;
    let p = apply_plan(&s, &nothing_found(&s), 0);
    assert_eq!(p.default_deny.len(), 2);
    assert_eq!(p.default_deny[0].layer, Layer::ConnectV4);
    assert_eq!(p.default_deny[1].layer, Layer::ConnectV6);
    for f in &p.default_deny {
        assert_eq!(f.weight, 1);
        assert_eq!(f.action, FilterAction::Block);
        assert!(f.conditions.is_empty());
        assert_eq!(f.name, "m0untain default deny outbound");
    }
    let weights: Vec<u8> = p.rules.iter().map(|f| f.weight).collect();
    assert_eq!(weights, vec![14, 14, 15, 15]);
}

#[test]
fn policy_remembers_what_was_added() {
    let mut p = Policy::new();
    assert_eq!(p.added(Origin::Rule, 0, 7), Ok(()));
    assert_eq!(
        p.added(Origin::Rule, 5, 8),
        Err("FwpmFilterAdd0(service app policy) failed: 5".to_string())
    );
    assert_eq!(
        p.added(Origin::DefaultDeny, 6, 8),
        Err("FwpmFilterAdd0(default deny) failed: 6".to_string())
    );
    assert_eq!(p.added(Origin::DefaultDeny, 0, 9), Ok(()));
    assert_eq!(p.clear(), vec![7, 9]);
    assert!(p.clear().is_empty());
    assert_eq!(sublayer_added(0), Ok(()));
    assert_eq!(sublayer_added(3), Err("FwpmSubLayerAdd0 failed: 3".to_string()));
}

#[test]
fn policy_loop_reacts_to_changes_only() {
    let mut l = PolicyLoop::new();
    assert_eq!(l.observe(None, true), LoopAction::Wait);
    assert_eq!(l.observe(Some(5), true), LoopAction::Reload);
    assert_eq!(l.observe(Some(5), true), LoopAction::Wait);
    assert_eq!(l.observe(Some(6), false), LoopAction::Reopen);
    assert_eq!(l.observe(Some(6), true), LoopAction::Wait);
    assert_eq!(l.observe(None, true), LoopAction::Reload);
}

#[test]
fn service_arguments_and_status() {
    let args = |list: &[&str]| list.iter().map(|s| s.to_string()).collect::<Vec<String>>();
    let missing = Err("--state <path-to-state.json> is required".to_string());
    assert_eq!(state_path_argument(&args(&["svc", "--state", "a.json"])), Ok(2));
    assert_eq!(state_path_argument(&args(&["svc", "x", "--state", "--state"])), Ok(3));
    assert_eq!(state_path_argument(&args(&["--state", "a.json"])), missing);
    assert_eq!(state_path_argument(&args(&["svc", "--state"])), missing);
    assert_eq!(state_path_argument(&args(&[])), missing);
    assert!(asks_to_stop(1));
    assert!(asks_to_stop(5));
    assert!(!asks_to_stop(2));
    assert_eq!(SERVICE_NAME, "m0untain-service");
    let s = current_status();
    assert_eq!(s, ServiceStatus::app_only());
    assert_eq!(s.mode, ServiceMode::AppOnly);
    assert!(s.message.starts_with("Windows service is not installed yet;"));
}
