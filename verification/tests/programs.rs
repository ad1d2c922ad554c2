use m0untain::apps::{app_key, app_name, is_blank, trim};
use m0untain::programs::decisions::Inspection;
use m0untain::programs::quarantine::{arrange, AppQuarantine};
use m0untain::programs::{
    find_rule_in, parse_protocol, remove_rules_with_app_id, Programs,
};
use m0untain::settings::{PersistentState, ProgramRule};
use m0untain::wfp::sim::SimFirewall;
use m0untain::wfp::{AppProtocol, Firewall, RawConn, RemoteMatch};
use m0untain::{IpAddr, Ipv4Addr};

/// A packet filter that keeps a log, and fails when told to.
struct Log {
    calls: Vec<String>,
    fail: bool,
    next: u64,
}

impl Log {
    fn new() -> Self {
        Log { calls: Vec::new(), fail: false, next: 100 }
    }

    fn answer(&mut self, call: String) -> Result<u64, String> {
        self.calls.push(call);
        if self.fail {
            return Err("no".to_string());
        }
        self.next += 1;
        Ok(self.next)
    }
}

impl Firewall for Log {
    fn block_ip(&mut self, ip: IpAddr) -> Result<u64, String> {
        self.answer(format!("block {}", ip.to_string()))
    }

    fn block_app(&mut self, app_id: &Vec<u8>, protocol: AppProtocol) -> Result<u64, String> {
        self.answer(format!("block {app_id:?} {protocol:?}"))
    }

    fn block_app_target(
        &mut self,
        app_id: &Vec<u8>,
        protocol: AppProtocol,
        _remote: Option<RemoteMatch>,
        _remote_port: Option<u16>,
    ) -> Result<u64, String> {
        self.answer(format!("block {app_id:?} {protocol:?} target"))
    }

    fn unblock(&mut self, handle: u64) -> Result<(), String> {
        self.calls.push(format!("unblock {handle}"));
        Ok(())
    }

    fn backend(&self) -> &'static str {
        "log"
    }
}

fn raw(path: Option<&str>, id: Option<Vec<u8>>) -> RawConn {
    RawConn {
        ts_ms: 5,
        inbound: false,
        is_new: true,
        udp: false,
        remote_ip: IpAddr::V4(Ipv4Addr::new(93, 184, 216, 34)),
        remote_port: 443,
        local_port: 50_000,
        pid: 12,
        app_id: id,
        app_path: path.map(|p| p.to_string()),
    }
}

fn demo() -> RawConn {
    raw(Some("C:\\Tools\\Demo.exe"), Some(vec![1, 2]))
}

fn rule(id: Vec<u8>, decision: &str) -> ProgramRule {
    ProgramRule {
        app_path: "p".to_string(),
        app_name: "n".to_string(),
        app_id: id,
        decision: decision.to_string(),
        ..ProgramRule::default()
    }
}

#[test]
fn application_keys_and_names() {
    assert_eq!(app_key("  C:\\Tools\\DEMO.exe \t"), "c:\\tools\\demo.exe");
    assert_eq!(app_key("\u{c4}B\u{a0}"), "\u{e4}b");
    assert_eq!(trim("\u{3000} x y \n"), "x y");
    assert!(is_blank(" \u{2028}\t"));
    assert!(!is_blank(" a "));
    assert_eq!(app_name("C:\\Tools\\Demo.exe"), "Demo.exe");
    assert_eq!(app_name("/usr/bin/curl"), "curl");
    assert_eq!(app_name("/usr/bin/"), "bin");
    assert_eq!(app_name("a\\b/"), "b");
    assert_eq!(app_name("//\\"), "//\\");
    assert_eq!(app_name(""), "");
    assert_eq!(app_name("plain"), "plain");
}

#[test]
fn protocols_are_read() {
    assert_eq!(parse_protocol("all"), Ok(AppProtocol::All));
    assert_eq!(parse_protocol("tcp"), Ok(AppProtocol::Tcp));
    assert_eq!(parse_protocol("udp"), Ok(AppProtocol::Udp));
    assert_eq!(parse_protocol("TCP"), Err("protocol must be all, tcp or udp".to_string()));
}

#[test]
fn rules_are_found_by_key_or_identifier() {
    let mut s = PersistentState::default();
    s.rules.insert("a".to_string(), rule(vec![1], "allow"));
    s.rules.insert("b".to_string(), rule(vec![2], "block"));
    s.rules.insert("c".to_string(), rule(vec![], "block"));
    assert_eq!(find_rule_in(&s.rules, "a", &vec![2]).unwrap().0, "a");
    assert_eq!(find_rule_in(&s.rules, "x", &vec![2]).unwrap().0, "b");
    assert!(find_rule_in(&s.rules, "x", &vec![]).is_none());
    assert!(find_rule_in(&s.rules, "x", &vec![3]).is_none());
    remove_rules_with_app_id(&mut s.rules, "a", &vec![2]);
    assert_eq!(s.rules.len(), 1);
    assert_eq!(s.rules.key_at(0), "c");
    remove_rules_with_app_id(&mut s.rules, "x", &vec![]);
    assert_eq!(s.rules.len(), 1);
}

#[test]
fn new_program_is_blocked_and_asked_about_once() {
    let mut fw = Log::new();
    let mut p = Programs::new(PersistentState::default());
    let prompt = p.inspect_program(&mut fw, &demo()).unwrap();
    assert_eq!(prompt.id, "c:\\tools\\demo.exe");
    assert_eq!(prompt.app_path, "C:\\Tools\\Demo.exe");
    assert_eq!(prompt.app_name, "Demo.exe");
    assert_eq!(prompt.direction, "outbound");
    assert_eq!(prompt.protocol, "tcp");
    assert_eq!(prompt.remote_ip, "93.184.216.34");
    assert_eq!(prompt.remote_port, 443);
    assert!(prompt.first_connection_may_have_passed);
    assert_eq!(fw.calls, vec!["block [1, 2] All"]);
    assert_eq!(p.pending().get(&prompt.id).unwrap().temporary_handle, Some(101));
    assert!(p.inspect_program(&mut fw, &demo()).is_none());
    let elsewhere = raw(Some("D:\\copy.exe"), Some(vec![1, 2]));
    assert!(p.inspect_program(&mut fw, &elsewhere).is_none());
    assert_eq!(fw.calls.len(), 1);
    assert!(p.has_pending_program("other", &vec![1, 2]));
    assert!(!p.has_pending_program("other", &vec![3]));
}

#[test]
fn prompt_stands_even_where_the_block_fails() {
    let mut fw = Log::new();
    fw.fail = true;
    let mut p = Programs::new(PersistentState::default());
    let prompt = p.inspect_program(&mut fw, &demo()).unwrap();
    assert_eq!(p.pending().get(&prompt.id).unwrap().temporary_handle, None);
}

#[test]
fn some_connections_are_no_matter_of_program_rules() {
    let mut fw = Log::new();
    let mut p = Programs::new(PersistentState::default());
    let mut inbound = demo();
    inbound.inbound = true;
    assert!(p.inspect_program(&mut fw, &inbound).is_none());
    assert!(p.inspect_program(&mut fw, &raw(None, Some(vec![1]))).is_none());
    assert!(p.inspect_program(&mut fw, &raw(Some("  "), Some(vec![1]))).is_none());
    assert!(p.inspect_program(&mut fw, &raw(Some("a"), Some(vec![]))).is_none());
    assert!(p.inspect_program(&mut fw, &raw(Some("a"), None)).is_none());
    let mut s = p.saved().settings.clone();
    s.ask_new_apps = false;
    p.set_app_settings(s);
    assert!(p.inspect_program(&mut fw, &demo()).is_none());
    assert!(fw.calls.is_empty());
}

#[test]
fn remembered_quarantine_is_kept_and_enforced() {
    let mut fw = Log::new();
    let mut p = Programs::new(PersistentState::default());
    let id = p.inspect_program(&mut fw, &demo()).unwrap().id;
    assert_eq!(p.decide_program(&mut fw, &id, "quarantine", "tcp", true), Ok(true));
    assert_eq!(
        fw.calls,
        vec!["block [1, 2] All", "unblock 101", "block [1, 2] Tcp"]
    );
    let rule = p.saved().rules.get(&id).unwrap();
    assert_eq!(rule.decision, "quarantine");
    assert_eq!(rule.protocol, "tcp");
    assert_eq!(rule.app_id, vec![1, 2]);
    assert_eq!(rule.direction, "outbound");
    assert_eq!(rule.profile_id, "global");
    assert_eq!(p.pending().len(), 0);
    let block = p.app_blocks().get(&id).unwrap();
    assert_eq!(block.handle, 102);
    assert!(!block.temporary);
    assert_eq!(block.protocol, "tcp");
    assert!(p.inspect_program(&mut fw, &demo()).is_none());
    assert_eq!(fw.calls.len(), 3);
    assert_eq!(
        p.decide_program(&mut fw, &id, "allow", "all", true),
        Err("connection request is no longer pending".to_string())
    );
}

#[test]
fn session_decision_is_not_kept_on_disk() {
    let mut fw = Log::new();
    let mut p = Programs::new(PersistentState::default());
    let id = p.inspect_program(&mut fw, &demo()).unwrap().id;
    assert_eq!(p.decide_program(&mut fw, &id, "allow", "all", false), Ok(false));
    assert_eq!(p.saved().rules.len(), 0);
    assert_eq!(p.session_rules().get(&id).unwrap().decision, "allow");
    assert!(p.inspect_program(&mut fw, &demo()).is_none());
    assert_eq!(p.find_program_rule("other", &vec![1, 2]).unwrap().0, id);
}

#[test]
fn remembered_decision_replaces_the_session_one() {
    let mut fw = Log::new();
    let mut p = Programs::new(PersistentState::default());
    let id = p.inspect_program(&mut fw, &demo()).unwrap().id;
    assert_eq!(p.decide_program(&mut fw, &id, "quarantine", "all", false), Ok(false));
    assert!(p.app_blocks().get(&id).unwrap().temporary);
    p.remember_known_app(&demo());
    assert_eq!(p.set_program_rule_decision(&mut fw, "C:\\Tools\\Demo.exe", "allow", "udp"), Ok(()));
    assert_eq!(p.session_rules().len(), 0);
    assert_eq!(p.app_blocks().len(), 0);
    assert_eq!(p.saved().rules.get(&id).unwrap().decision, "allow");
    assert_eq!(p.saved().rules.get(&id).unwrap().protocol, "udp");
    assert_eq!(fw.calls.last().unwrap(), "unblock 102");
}

#[test]
fn refused_decisions_change_nothing() {
    let mut fw = Log::new();
    let mut p = Programs::new(PersistentState::default());
    let id = p.inspect_program(&mut fw, &demo()).unwrap().id;
    assert_eq!(
        p.decide_program(&mut fw, &id, "block", "all", true),
        Err("decision must be allow or quarantine".to_string())
    );
    assert_eq!(
        p.decide_program(&mut fw, &id, "allow", "icmp", true),
        Err("protocol must be all, tcp or udp".to_string())
    );
    assert_eq!(p.pending().len(), 1);
    fw.fail = true;
    assert_eq!(
        p.decide_program(&mut fw, &id, "quarantine", "all", true),
        Err("no".to_string())
    );
    assert_eq!(p.pending().len(), 0);
    assert_eq!(p.saved().rules.len(), 0);
    assert_eq!(p.app_blocks().len(), 0);
}

#[test]
fn observed_programs_can_be_decided_on() {
    let mut fw = Log::new();
    let mut p = Programs::new(PersistentState::default());
    let path = "C:\\Tools\\Demo.exe";
    assert_eq!(
        p.set_program_rule_decision(&mut fw, path, "quarantine", "all"),
        Err("program was not observed in this session yet".to_string())
    );
    assert_eq!(
        p.set_program_rule_decision(&mut fw, path, "deny", "all"),
        Err("decision must be allow or quarantine".to_string())
    );
    assert_eq!(
        p.set_program_rule_decision(&mut fw, path, "allow", "x"),
        Err("protocol must be all, tcp or udp".to_string())
    );
    p.remember_known_app(&demo());
    assert_eq!(p.set_program_rule_decision(&mut fw, path, "quarantine", "udp"), Ok(()));
    assert_eq!(fw.calls, vec!["block [1, 2] Udp"]);
    assert_eq!(p.app_blocks().get("c:\\tools\\demo.exe").unwrap().handle, 101);
    assert_eq!(p.set_program_rule_decision(&mut fw, path, "quarantine", "tcp"), Ok(()));
    assert_eq!(fw.calls, vec!["block [1, 2] Udp", "block [1, 2] Tcp", "unblock 101"]);
    fw.fail = true;
    assert_eq!(
        p.set_program_rule_decision(&mut fw, path, "quarantine", "all"),
        Err("no".to_string())
    );
    assert_eq!(p.saved().rules.get("c:\\tools\\demo.exe").unwrap().protocol, "tcp");
}

#[test]
fn remembered_rule_can_be_changed_without_an_observation() {
    let mut s = PersistentState::default();
    s.rules.insert("a.exe".to_string(), rule(vec![7], "quarantine"));
    let mut p = Programs::new(s);
    let mut fw = Log::new();
    assert_eq!(p.set_program_rule_decision(&mut fw, " A.EXE ", "allow", "all"), Ok(()));
    assert_eq!(p.saved().rules.get("a.exe").unwrap().decision, "allow");
    assert_eq!(p.saved().rules.get("a.exe").unwrap().app_id, vec![7]);
}

#[test]
fn removed_rules_are_gone() {
    let mut fw = Log::new();
    let mut p = Programs::new(PersistentState::default());
    let id = p.inspect_program(&mut fw, &demo()).unwrap().id;
    assert_eq!(p.decide_program(&mut fw, &id, "quarantine", "all", true), Ok(true));
    fw.calls.clear();
    p.remove_program_rule(&mut fw, "C:\\Tools\\Demo.exe");
    assert_eq!(fw.calls, vec!["unblock 102"]);
    assert_eq!(p.saved().rules.len(), 0);
    assert_eq!(p.app_blocks().len(), 0);
    p.remove_program_rule(&mut fw, "C:\\Tools\\Demo.exe");
    assert_eq!(fw.calls, vec!["unblock 102"]);
}

#[test]
fn decision_lifts_the_temporary_block_and_then_blocks_in_its_scope() {
    let mut fw = Log::new();
    let mut p = Programs::new(PersistentState::default());
    let id = p.inspect_program(&mut fw, &demo()).unwrap().id;
    assert_eq!(fw.calls, vec!["block [1, 2] All"]);
    assert!(p.decide_program(&mut fw, &id, "perhaps", "udp", true).is_err());
    assert!(p.decide_program(&mut fw, &id, "quarantine", "icmp", true).is_err());
    assert!(p.decide_program(&mut fw, "other", "quarantine", "udp", true).is_err());
    assert_eq!(fw.calls.len(), 1);
    assert_eq!(p.decide_program(&mut fw, &id, "quarantine", "udp", false), Ok(false));
    assert_eq!(fw.calls[1..], ["unblock 101", "block [1, 2] Udp"]);
    assert_eq!(p.app_blocks().get(&id).unwrap().handle, 102);
}

#[test]
fn changed_rule_is_enforced_before_the_old_block_is_lifted() {
    let mut fw = Log::new();
    let mut p = Programs::new(PersistentState::default());
    p.remember_known_app(&demo());
    let path = "C:\\Tools\\Demo.exe";
    assert_eq!(p.set_program_rule_decision(&mut fw, path, "quarantine", "tcp"), Ok(()));
    assert_eq!(fw.calls, vec!["block [1, 2] Tcp"]);
    fw.fail = true;
    let refused = p.set_program_rule_decision(&mut fw, path, "quarantine", "udp");
    assert_eq!(refused, Err("no".to_string()));
    assert_eq!(fw.calls[1..], ["block [1, 2] Udp"]);
    assert_eq!(p.app_blocks().get(&app_key(path)).unwrap().handle, 101);
    fw.fail = false;
    assert_eq!(p.set_program_rule_decision(&mut fw, path, "quarantine", "all"), Ok(()));
    assert_eq!(fw.calls[2..], ["block [1, 2] All", "unblock 101"]);
    assert_eq!(p.app_blocks().get(&app_key(path)).unwrap().handle, 102);
    assert_eq!(p.set_program_rule_decision(&mut fw, path, "allow", "all"), Ok(()));
    assert_eq!(fw.calls[4..], ["unblock 102"]);
}

#[test]
fn whitespace_is_that_of_unicode() {
    let listed = |n: u32| {
        matches!(
            n,
            0x09..=0x0d
                | 0x20
                | 0x85
                | 0xa0
                | 0x1680
                | 0x2000..=0x200a
                | 0x2028
                | 0x2029
                | 0x202f
                | 0x205f
                | 0x3000
        )
    };
    for n in 0..=0x10_ffffu32 {
        if let Some(c) = char::from_u32(n) {
            assert_eq!(is_blank(&c.to_string()), listed(n), "{n:x}");
        }
    }
}

#[test]
fn quarantine_rule_is_enforced_when_seen() {
    let mut s = PersistentState::default();
    let mut r = rule(vec![1, 2], "quarantine");
    r.protocol = "odd".to_string();
    s.rules.insert("old key".to_string(), r);
    let mut p = Programs::new(s);
    let mut fw = Log::new();
    match p.begin_inspection(&demo()) {
        Inspection::Enforce { rule_key, .. } => assert_eq!(rule_key, "old key"),
        _ => panic!("the rule applies"),
    }
    assert!(p.inspect_program(&mut fw, &demo()).is_none());
    assert_eq!(fw.calls, vec!["block [1, 2] All"]);
    assert_eq!(p.app_blocks().get("old key").unwrap().handle, 101);
    assert!(p.inspect_program(&mut fw, &demo()).is_none());
    assert_eq!(fw.calls.len(), 1);
}

#[test]
fn remembered_quarantines_are_restored() {
    let mut s = PersistentState::default();
    s.rules.insert("a".to_string(), rule(vec![1], "quarantine"));
    s.rules.insert("b".to_string(), rule(vec![2], "allow"));
    let mut c = rule(vec![3], "quarantine");
    c.protocol = "udp".to_string();
    s.rules.insert("c".to_string(), c);
    let mut p = Programs::new(s);
    let mut fw = Log::new();
    p.restore_quarantines(&mut fw);
    assert_eq!(fw.calls, vec!["block [1] All", "block [3] Udp"]);
    assert_eq!(p.app_blocks().len(), 2);
    assert!(p.app_blocks().contains_key("a"));
    assert_eq!(p.app_blocks().get("c").unwrap().handle, 102);
}

#[test]
fn quarantine_list_is_complete_and_in_order() {
    let mut s = PersistentState::default();
    let named = |name: &str, id: u8| ProgramRule {
        app_name: name.to_string(),
        ..rule(vec![id], "quarantine")
    };
    s.rules.insert("r1".to_string(), named("zeta", 1));
    s.rules.insert("r2".to_string(), named("Alpha", 2));
    s.rules.insert("r3".to_string(), ProgramRule { app_name: "no".to_string(), ..rule(vec![3], "allow") });
    let mut p = Programs::new(s);
    let mut fw = SimFirewall::start().unwrap();
    let id = p.inspect_program(&mut fw, &raw(Some("x\\session.exe"), Some(vec![9]))).unwrap().id;
    assert_eq!(p.decide_program(&mut fw, &id, "quarantine", "all", false), Ok(false));
    let _ = p.inspect_program(&mut fw, &raw(Some("x\\new.exe"), Some(vec![8])));
    let _ = p.inspect_program(&mut fw, &raw(Some("seen"), Some(vec![2])));
    let list = p.quarantine_snapshot();
    let shown: Vec<(&str, &str, bool, bool)> = list
        .iter()
        .map(|l| (l.status.as_str(), l.app_name.as_str(), l.active, l.temporary))
        .collect();
    assert_eq!(
        shown,
        vec![
            ("waiting", "new.exe", true, true),
            ("session", "session.exe", true, true),
            ("enforced", "Alpha", true, false),
            ("remembered", "zeta", false, false),
        ]
    );
    assert_eq!(list[0].protocol, "all");
}

#[test]
fn lines_are_arranged_by_status_then_name() {
    let line = |status: &str, name: &str, protocol: &str| AppQuarantine {
        app_path: String::new(),
        app_name: name.to_string(),
        protocol: protocol.to_string(),
        status: status.to_string(),
        active: false,
        temporary: false,
    };
    let lines = vec![
        line("remembered", "a", "1"),
        line("enforced", "bb", "2"),
        line("enforced", "B", "3"),
        line("waiting", "z", "4"),
        line("enforced", "b", "5"),
        line("session", "", "6"),
    ];
    let names: Vec<String> = lines.iter().map(|l| l.app_name.to_lowercase()).collect();
    let order: Vec<String> = arrange(&lines, &names).into_iter().map(|l| l.protocol).collect();
    assert_eq!(order, vec!["4", "6", "3", "5", "2", "1"]);
}
