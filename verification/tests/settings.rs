use m0untain::settings::{
    autostart_command, default_profiles, normalize_state, schema_version, set_autostart,
    startup_key_opened, startup_value_changed, state_or_default, NotificationRecord, PersistentState, ProgramRule,
    RuleProfile, RuleTarget, DEFAULT_PROFILE_ID, GLOBAL_PROFILE_ID, STATE_FILE_NAME,
};
use serde_json::Value;

fn text(v: &Value, key: &str, default: &str) -> String {
    v.get(key).and_then(|x| x.as_str()).unwrap_or(default).to_string()
}

/// Reads the parts of a state file that the tests are about.
fn state_from_json(json: &str) -> PersistentState {
    let v: Value = serde_json::from_str(json).unwrap();
    let mut state = PersistentState::default();
    state.schema_version = match v.get("schemaVersion").and_then(|x| x.as_u64()) {
        Some(n) => n as u32,
        None => schema_version(),
    };
    if let Some(s) = v.get("settings") {
        state.settings.active_profile_id = text(s, "activeProfileId", DEFAULT_PROFILE_ID);
        if let Some(b) = s.get("askNewApps").and_then(|x| x.as_bool()) {
            state.settings.ask_new_apps = b;
        }
    }
    if let Some(rules) = v.get("rules").and_then(|x| x.as_object()) {
        for (key, r) in rules.iter() {
            let base = ProgramRule::default();
            let rule = ProgramRule {
                app_path: text(r, "appPath", &base.app_path),
                app_name: text(r, "appName", &base.app_name),
                decision: text(r, "decision", &base.decision),
                protocol: text(r, "protocol", &base.protocol),
                direction: text(r, "direction", &base.direction),
                profile_id: text(r, "profileId", &base.profile_id),
                ..base
            };
            state.rules.insert(key.clone(), rule);
        }
    }
    state.profiles = match v.get("profiles").and_then(|x| x.as_array()) {
        Some(list) => list
            .iter()
            .map(|p| RuleProfile {
                id: text(p, "id", "home"),
                name: text(p, "name", "Home"),
                description: text(p, "description", "Trusted personal network"),
                default_deny: p.get("defaultDeny").and_then(|x| x.as_bool()).unwrap_or(false),
            })
            .collect(),
        None => default_profiles(),
    };
    state
}

fn state_to_json(state: &PersistentState) -> String {
    let mut rules = serde_json::Map::new();
    for i in 0..state.rules.len() {
        let r = state.rules.value_at(i);
        let mut m = serde_json::Map::new();
        m.insert("appPath".to_string(), Value::String(r.app_path.clone()));
        m.insert("appName".to_string(), Value::String(r.app_name.clone()));
        m.insert("decision".to_string(), Value::String(r.decision.clone()));
        m.insert("protocol".to_string(), Value::String(r.protocol.clone()));
        m.insert("direction".to_string(), Value::String(r.direction.clone()));
        m.insert("profileId".to_string(), Value::String(r.profile_id.clone()));
        rules.insert(state.rules.key_at(i).to_string(), Value::Object(m));
    }
    let mut settings = serde_json::Map::new();
    settings.insert(
        "activeProfileId".to_string(),
        Value::String(state.settings.active_profile_id.clone()),
    );
    settings.insert("askNewApps".to_string(), Value::Bool(state.settings.ask_new_apps));
    let profiles: Vec<Value> = state
        .profiles
        .iter()
        .map(|p| {
            let mut m = serde_json::Map::new();
            m.insert("id".to_string(), Value::String(p.id.clone()));
            m.insert("name".to_string(), Value::String(p.name.clone()));
            m.insert("description".to_string(), Value::String(p.description.clone()));
            m.insert("defaultDeny".to_string(), Value::Bool(p.default_deny));
            Value::Object(m)
        })
        .collect();
    let mut all = serde_json::Map::new();
    all.insert("schemaVersion".to_string(), Value::from(state.schema_version));
    all.insert("settings".to_string(), Value::Object(settings));
    all.insert("rules".to_string(), Value::Object(rules));
    all.insert("profiles".to_string(), Value::Array(profiles));
    serde_json::to_string_pretty(&Value::Object(all)).unwrap()
}

#[test]
fn migrates_v1_rules_into_v2_defaults() {
    let json = r#"{
        "settings": { "askNewApps": true },
        "rules": {
            "c:\\tools\\demo.exe": {
                "appPath": "C:\\tools\\demo.exe",
                "appName": "demo.exe",
                "decision": "allow",
                "protocol": "tcp"
            }
        }
    }"#;

    let state = normalize_state(state_from_json(json));
    let rule = state.rules.get("c:\\tools\\demo.exe").unwrap();

    assert_eq!(state.schema_version, 2);
    assert_eq!(state.settings.active_profile_id, DEFAULT_PROFILE_ID);
    assert_eq!(rule.profile_id, GLOBAL_PROFILE_ID);
    assert_eq!(rule.direction, "outbound");
    assert_eq!(state.profiles.len(), 5);
}

#[test]
fn trims_notification_history_to_recent_records() {
    let mut state = PersistentState::default();
    state.notifications = (0..450)
        .map(|idx: u64| NotificationRecord {
            id: idx.to_string(),
            ts_ms: idx,
            ..NotificationRecord::default()
        })
        .collect();

    let state = normalize_state(state);

    assert_eq!(state.notifications.len(), 400);
    assert_eq!(state.notifications.first().unwrap().id, "50");
}

#[test]
fn state_json_roundtrips_v2_schema() {
    let mut state = normalize_state(PersistentState::default());
    state.rules.insert(
        "home|demo|tcp|outbound|any".to_string(),
        ProgramRule {
            app_path: "C:\\demo.exe".to_string(),
            app_name: "demo.exe".to_string(),
            decision: "allow".to_string(),
            protocol: "tcp".to_string(),
            profile_id: "home".to_string(),
            ..ProgramRule::default()
        },
    );

    let json = state_to_json(&state);
    let decoded = normalize_state(state_from_json(&json));

    assert_eq!(decoded.schema_version, 2);
    assert_eq!(decoded.rules.len(), 1);
    assert_eq!(decoded.profiles.len(), 5);
    assert_eq!(decoded.settings.active_profile_id, "home");
}

#[test]
fn normalising_fills_every_gap() {
    let mut state = PersistentState::default();
    state.settings.active_profile_id = "nowhere".to_string();
    state.rules.insert(
        "a".to_string(),
        ProgramRule {
            decision: "maybe".to_string(),
            protocol: String::new(),
            direction: String::new(),
            profile_id: String::new(),
            ..ProgramRule::default()
        },
    );
    state.rules.insert(
        "b".to_string(),
        ProgramRule { decision: "block".to_string(), ..ProgramRule::default() },
    );
    let state = normalize_state(state);
    assert_eq!(state.settings.active_profile_id, "home");
    let a = state.rules.get("a").unwrap();
    assert_eq!(a.decision, "allow");
    assert_eq!(a.protocol, "all");
    assert_eq!(a.direction, "outbound");
    assert_eq!(a.profile_id, "global");
    assert!(!a.is_blocking());
    assert!(state.rules.get("b").unwrap().is_blocking());
    assert_eq!(state.rules.key_at(0), "a");
    assert_eq!(state.rules.key_at(1), "b");
}

#[test]
fn unreadable_state_counts_as_the_default() {
    let fresh = state_or_default(None);
    assert_eq!(fresh.schema_version, 2);
    assert_eq!(fresh.rules.len(), 0);
    assert_eq!(fresh.profiles, default_profiles());
    let mut s = PersistentState::default();
    s.settings.ask_new_apps = false;
    s.rules.insert("a".to_string(), ProgramRule::default());
    let read = state_or_default(Some(s));
    assert_eq!(read.schema_version, 2);
    assert!(!read.settings.ask_new_apps);
    assert_eq!(read.rules.len(), 1);
}

#[test]
fn normalising_twice_is_normalising_once() {
    let mut state = PersistentState::default();
    state.profiles.push(RuleProfile { id: "solo".to_string(), ..RuleProfile::default() });
    state.settings.active_profile_id = "solo".to_string();
    state.notifications = (0..401).map(|_| NotificationRecord::default()).collect();
    let once = normalize_state(state);
    assert_eq!(once.profiles.len(), 1);
    assert_eq!(once.settings.active_profile_id, "solo");
    let shown = (once.schema_version, once.settings.clone(), once.notifications.len());
    let twice = normalize_state(once);
    assert_eq!(shown, (twice.schema_version, twice.settings.clone(), twice.notifications.len()));
}

#[test]
fn defaults_are_the_documented_ones() {
    let s = PersistentState::default().settings;
    assert!(!s.launch_on_startup);
    assert!(s.close_to_tray);
    assert!(s.ask_new_apps);
    assert!(!s.default_deny_enabled);
    let t = RuleTarget::default();
    assert_eq!(t.kind, "any");
    assert_eq!(t.port, None);
    let ids: Vec<String> = default_profiles().into_iter().map(|p| p.id).collect();
    assert_eq!(ids, vec!["home", "public-wifi", "gaming", "work", "lockdown"]);
    let denying: Vec<bool> = default_profiles().into_iter().map(|p| p.default_deny).collect();
    assert_eq!(denying, vec![false, true, false, false, true]);
    assert_eq!(NotificationRecord::default().kind, "info");
    assert_eq!(STATE_FILE_NAME, "state.json");
}

#[test]
fn autostart_outcomes() {
    assert_eq!(
        autostart_command("C:\\Program Files\\m0untain.exe"),
        "\"C:\\Program Files\\m0untain.exe\" --hidden"
    );
    assert_eq!(startup_key_opened(0), Ok(()));
    assert_eq!(
        startup_key_opened(5),
        Err("Windows startup key could not be opened: 5".to_string())
    );
    assert_eq!(startup_value_changed(0), Ok(()));
    assert_eq!(startup_value_changed(2), Ok(()));
    assert_eq!(
        startup_value_changed(87),
        Err("Windows startup setting failed: 87".to_string())
    );
    assert_eq!(set_autostart(true), Ok(()));
}
