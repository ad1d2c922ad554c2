//! Persistent settings: application rules, profiles, notification history, and
//! the normalisation of state files of any age.

use vstd::prelude::*;
use vstd::string::*;

use crate::book::Book;
use crate::text;

verus! {

/// Scope of rules that hold under every profile.
pub const GLOBAL_PROFILE_ID: &'static str = "global";

pub const DEFAULT_PROFILE_ID: &'static str = "home";

/// The file name of the persistent state, inside the configuration directory.
pub const STATE_FILE_NAME: &'static str = "state.json";

/// How many notification records are kept.
pub const NOTIFICATION_LIMIT: usize = 400;

#[derive(Debug, PartialEq, Eq)]
pub struct AppSettings {
    pub launch_on_startup: bool,
    pub close_to_tray: bool,
    pub ask_new_apps: bool,
    pub active_profile_id: String,
    pub default_deny_enabled: bool,
}

#[verifier::ext_equal]
pub struct SettingsModel {
    pub launch_on_startup: bool,
    pub close_to_tray: bool,
    pub ask_new_apps: bool,
    pub active_profile_id: Seq<char>,
    pub default_deny_enabled: bool,
}

impl View for AppSettings {
    type V = SettingsModel;

    open spec fn view(&self) -> SettingsModel {
        SettingsModel {
            launch_on_startup: self.launch_on_startup,
            close_to_tray: self.close_to_tray,
            ask_new_apps: self.ask_new_apps,
            active_profile_id: self.active_profile_id@,
            default_deny_enabled: self.default_deny_enabled,
        }
    }
}

impl SettingsModel {
    pub open spec fn default_spec() -> SettingsModel {
        SettingsModel {
            launch_on_startup: false,
            close_to_tray: true,
            ask_new_apps: true,
            active_profile_id: "home"@,
            default_deny_enabled: false,
        }
    }
}

impl Default for AppSettings {
    fn default() -> (r: Self)
        ensures
            r@ == SettingsModel::default_spec(),
    {
        AppSettings {
            launch_on_startup: false,
            close_to_tray: true,
            ask_new_apps: true,
            active_profile_id: "home".to_owned(),
            default_deny_enabled: false,
        }
    }
}

impl Clone for AppSettings {
    fn clone(&self) -> (r: Self)
        ensures
            r@ == self@,
    {
        AppSettings {
            launch_on_startup: self.launch_on_startup,
            close_to_tray: self.close_to_tray,
            ask_new_apps: self.ask_new_apps,
            active_profile_id: self.active_profile_id.clone(),
            default_deny_enabled: self.default_deny_enabled,
        }
    }
}

#[derive(Debug, PartialEq, Eq)]
pub struct RuleTarget {
    /// "any", "ip", "domain" or "cidr".
    pub kind: String,
    pub value: String,
    pub port: Option<u16>,
}

#[verifier::ext_equal]
pub struct TargetModel {
    pub kind: Seq<char>,
    pub value: Seq<char>,
    pub port: Option<u16>,
}

impl View for RuleTarget {
    type V = TargetModel;

    open spec fn view(&self) -> TargetModel {
        TargetModel { kind: self.kind@, value: self.value@, port: self.port }
    }
}

impl Default for RuleTarget {
    fn default() -> (r: Self)
        ensures
            r@ == (TargetModel { kind: "any"@, value: Seq::empty(), port: None }),
    {
        RuleTarget { kind: "any".to_owned(), value: String::new(), port: None }
    }
}

impl Clone for RuleTarget {
    fn clone(&self) -> (r: Self)
        ensures
            r@ == self@,
    {
        RuleTarget { kind: self.kind.clone(), value: self.value.clone(), port: self.port }
    }
}

/// A decision of the user on one application.
#[derive(Debug, PartialEq, Eq)]
pub struct ProgramRule {
    pub app_path: String,
    pub app_name: String,
    pub app_id: Vec<u8>,
    pub app_package_sid: Vec<u8>,
    /// "allow", "block" or "quarantine".
    pub decision: String,
    /// "all", "tcp" or "udp".
    pub protocol: String,
    /// "inbound", "outbound" or "both".
    pub direction: String,
    pub target: Option<RuleTarget>,
    pub expires_at_ms: Option<u64>,
    pub profile_id: String,
    pub created_at_ms: u64,
    pub updated_at_ms: u64,
}

#[verifier::ext_equal]
pub struct RuleModel {
    pub app_path: Seq<char>,
    pub app_name: Seq<char>,
    pub app_id: Seq<u8>,
    pub app_package_sid: Seq<u8>,
    pub decision: Seq<char>,
    pub protocol: Seq<char>,
    pub direction: Seq<char>,
    pub target: Option<TargetModel>,
    pub expires_at_ms: Option<u64>,
    pub profile_id: Seq<char>,
    pub created_at_ms: u64,
    pub updated_at_ms: u64,
}

pub open spec fn target_option(t: Option<RuleTarget>) -> Option<TargetModel> {
    match t {
        Some(t) => Some(t@),
        None => None,
    }
}

impl View for ProgramRule {
    type V = RuleModel;

    open spec fn view(&self) -> RuleModel {
        RuleModel {
            app_path: self.app_path@,
            app_name: self.app_name@,
            app_id: self.app_id@,
            app_package_sid: self.app_package_sid@,
            decision: self.decision@,
            protocol: self.protocol@,
            direction: self.direction@,
            target: target_option(self.target),
            expires_at_ms: self.expires_at_ms,
            profile_id: self.profile_id@,
            created_at_ms: self.created_at_ms,
            updated_at_ms: self.updated_at_ms,
        }
    }
}

impl RuleModel {
    pub open spec fn default_spec() -> RuleModel {
        RuleModel {
            app_path: Seq::empty(),
            app_name: Seq::empty(),
            app_id: Seq::empty(),
            app_package_sid: Seq::empty(),
            decision: "allow"@,
            protocol: "all"@,
            direction: "outbound"@,
            target: None,
            expires_at_ms: None,
            profile_id: "global"@,
            created_at_ms: 0,
            updated_at_ms: 0,
        }
    }

    pub open spec fn blocking(self) -> bool {
        self.decision == "block"@ || self.decision == "quarantine"@
    }

    /// The rule with its gaps filled in: an empty profile, protocol or direction
    /// gets its default, and a decision that is none becomes "allow".
    pub open spec fn normalized(self) -> RuleModel {
        RuleModel {
            profile_id: if self.profile_id.len() == 0 {
                "global"@
            } else {
                self.profile_id
            },
            protocol: if self.protocol.len() == 0 {
                "all"@
            } else {
                self.protocol
            },
            direction: if self.direction.len() == 0 {
                "outbound"@
            } else {
                self.direction
            },
            decision: if self.decision == "quarantine"@ || self.decision == "block"@
                || self.decision == "allow"@ {
                self.decision
            } else {
                "allow"@
            },
            ..self
        }
    }
}

impl Default for ProgramRule {
    fn default() -> (r: Self)
        ensures
            r@ == RuleModel::default_spec(),
    {
        ProgramRule {
            app_path: String::new(),
            app_name: String::new(),
            app_id: Vec::new(),
            app_package_sid: Vec::new(),
            decision: "allow".to_owned(),
            protocol: "all".to_owned(),
            direction: "outbound".to_owned(),
            target: None,
            expires_at_ms: None,
            profile_id: "global".to_owned(),
            created_at_ms: 0,
            updated_at_ms: 0,
        }
    }
}

impl Clone for ProgramRule {
    fn clone(&self) -> (r: Self)
        ensures
            r@ == self@,
    {
        ProgramRule {
            app_path: self.app_path.clone(),
            app_name: self.app_name.clone(),
            app_id: text::copy_bytes(&self.app_id),
            app_package_sid: text::copy_bytes(&self.app_package_sid),
            decision: self.decision.clone(),
            protocol: self.protocol.clone(),
            direction: self.direction.clone(),
            target: match &self.target {
                Some(t) => Some(t.clone()),
                None => None,
            },
            expires_at_ms: self.expires_at_ms,
            profile_id: self.profile_id.clone(),
            created_at_ms: self.created_at_ms,
            updated_at_ms: self.updated_at_ms,
        }
    }
}

impl ProgramRule {
    pub fn is_blocking(&self) -> (r: bool)
        ensures
            r == self@.blocking(),
    {
        text::same_text(self.decision.as_str(), "block") || text::same_text(
            self.decision.as_str(),
            "quarantine",
        )
    }
}

#[derive(Debug, PartialEq, Eq)]
pub struct RuleProfile {
    pub id: String,
    pub name: String,
    pub description: String,
    pub default_deny: bool,
}

#[verifier::ext_equal]
pub struct ProfileModel {
    pub id: Seq<char>,
    pub name: Seq<char>,
    pub description: Seq<char>,
    pub default_deny: bool,
}

impl View for RuleProfile {
    type V = ProfileModel;

    open spec fn view(&self) -> ProfileModel {
        ProfileModel {
            id: self.id@,
            name: self.name@,
            description: self.description@,
            default_deny: self.default_deny,
        }
    }
}

impl Default for RuleProfile {
    fn default() -> (r: Self)
        ensures
            r@ == home_profile(),
    {
        profile("home", "Home", "Trusted personal network", false)
    }
}

impl Clone for RuleProfile {
    fn clone(&self) -> (r: Self)
        ensures
            r@ == self@,
    {
        RuleProfile {
            id: self.id.clone(),
            name: self.name.clone(),
            description: self.description.clone(),
            default_deny: self.default_deny,
        }
    }
}

#[derive(Debug, PartialEq, Eq)]
pub struct NotificationRecord {
    pub id: String,
    pub ts_ms: u64,
    pub kind: String,
    pub title: String,
    pub body: String,
    pub app_path: Option<String>,
    pub remote: Option<String>,
}

#[verifier::ext_equal]
pub struct NotificationModel {
    pub id: Seq<char>,
    pub ts_ms: u64,
    pub kind: Seq<char>,
    pub title: Seq<char>,
    pub body: Seq<char>,
    pub app_path: Option<Seq<char>>,
    pub remote: Option<Seq<char>>,
}

impl View for NotificationRecord {
    type V = NotificationModel;

    open spec fn view(&self) -> NotificationModel {
        NotificationModel {
            id: self.id@,
            ts_ms: self.ts_ms,
            kind: self.kind@,
            title: self.title@,
            body: self.body@,
            app_path: text::text_option(self.app_path),
            remote: text::text_option(self.remote),
        }
    }
}

impl Default for NotificationRecord {
    fn default() -> (r: Self)
        ensures
            r@ == (NotificationModel {
                id: Seq::empty(),
                ts_ms: 0,
                kind: "info"@,
                title: Seq::empty(),
                body: Seq::empty(),
                app_path: None,
                remote: None,
            }),
    {
        NotificationRecord {
            id: String::new(),
            ts_ms: 0,
            kind: "info".to_owned(),
            title: String::new(),
            body: String::new(),
            app_path: None,
            remote: None,
        }
    }
}

impl Clone for NotificationRecord {
    fn clone(&self) -> (r: Self)
        ensures
            r@ == self@,
    {
        NotificationRecord {
            id: self.id.clone(),
            ts_ms: self.ts_ms,
            kind: self.kind.clone(),
            title: self.title.clone(),
            body: self.body.clone(),
            app_path: text::copy_text_option(&self.app_path),
            remote: text::copy_text_option(&self.remote),
        }
    }
}

/// Everything that is kept on disk.
pub struct PersistentState {
    pub schema_version: u32,
    pub settings: AppSettings,
    pub rules: Book<ProgramRule>,
    pub profiles: Vec<RuleProfile>,
    pub notifications: Vec<NotificationRecord>,
}

#[verifier::ext_equal]
pub struct StateModel {
    pub schema_version: u32,
    pub settings: SettingsModel,
    pub rules: Seq<(Seq<char>, RuleModel)>,
    pub profiles: Seq<ProfileModel>,
    pub notifications: Seq<NotificationModel>,
}

impl View for PersistentState {
    type V = StateModel;

    open spec fn view(&self) -> StateModel {
        StateModel {
            schema_version: self.schema_version,
            settings: self.settings@,
            rules: self.rules@,
            profiles: self.profiles@.map_values(|p: RuleProfile| p@),
            notifications: self.notifications@.map_values(|n: NotificationRecord| n@),
        }
    }
}

impl StateModel {
    /// The state before anything was set or decided.
    pub open spec fn default_spec() -> StateModel {
        StateModel {
            schema_version: 0,
            settings: SettingsModel::default_spec(),
            rules: Seq::empty(),
            profiles: Seq::empty(),
            notifications: Seq::empty(),
        }
    }
}

impl Default for PersistentState {
    fn default() -> (r: Self)
        ensures
            r@ == StateModel::default_spec(),
    {
        let r = PersistentState {
            schema_version: 0,
            settings: AppSettings::default(),
            rules: Book::new(),
            profiles: Vec::new(),
            notifications: Vec::new(),
        };
        proof {
            assert(r@.rules =~= Seq::empty());
            assert(r@.profiles =~= Seq::empty());
            assert(r@.notifications =~= Seq::empty());
        }
        r
    }
}

/// The version of the state file format.
pub fn schema_version() -> (r: u32)
    ensures
        r == 2,
{
    2
}

fn profile(id: &str, name: &str, description: &str, default_deny: bool) -> (r: RuleProfile)
    ensures
        r@ == (ProfileModel { id: id@, name: name@, description: description@, default_deny }),
{
    RuleProfile {
        id: id.to_owned(),
        name: name.to_owned(),
        description: description.to_owned(),
        default_deny,
    }
}

pub open spec fn home_profile() -> ProfileModel {
    ProfileModel {
        id: "home"@,
        name: "Home"@,
        description: "Trusted personal network"@,
        default_deny: false,
    }
}

/// The built-in profiles.
pub open spec fn default_profiles_spec() -> Seq<ProfileModel> {
    seq![
        home_profile(),
        ProfileModel {
            id: "public-wifi"@,
            name: "Public Wi-Fi"@,
            description: "Ask more, trust less"@,
            default_deny: true,
        },
        ProfileModel {
            id: "gaming"@,
            name: "Gaming"@,
            description: "Low-friction mode for known apps"@,
            default_deny: false,
        },
        ProfileModel {
            id: "work"@,
            name: "Work"@,
            description: "Productivity and VPN friendly"@,
            default_deny: false,
        },
        ProfileModel {
            id: "lockdown"@,
            name: "Lockdown"@,
            description: "Default deny for unknown outbound traffic"@,
            default_deny: true,
        },
    ]
}

/// The built-in profiles.
pub fn default_profiles() -> (r: Vec<RuleProfile>)
    ensures
        r@.map_values(|p: RuleProfile| p@) == default_profiles_spec(),
{
    let mut r: Vec<RuleProfile> = Vec::new();
    r.push(profile("home", "Home", "Trusted personal network", false));
    r.push(profile("public-wifi", "Public Wi-Fi", "Ask more, trust less", true));
    r.push(profile("gaming", "Gaming", "Low-friction mode for known apps", false));
    r.push(profile("work", "Work", "Productivity and VPN friendly", false));
    r.push(
        profile("lockdown", "Lockdown", "Default deny for unknown outbound traffic", true),
    );
    proof {
        assert(r@.map_values(|p: RuleProfile| p@) =~= default_profiles_spec());
    }
    r
}

/// Whether some profile has the given id.
pub open spec fn has_profile(profiles: Seq<ProfileModel>, id: Seq<char>) -> bool {
    exists|i: int| 0 <= i < profiles.len() && (#[trigger] profiles[i]).id == id
}

fn find_profile(profiles: &Vec<RuleProfile>, id: &str) -> (r: bool)
    ensures
        r == has_profile(profiles@.map_values(|p: RuleProfile| p@), id@),
{
    let ghost models = profiles@.map_values(|p: RuleProfile| p@);
    let mut i: usize = 0;
    while i < profiles.len()
        invariant
            i <= profiles@.len(),
            models == profiles@.map_values(|p: RuleProfile| p@),
            forall|j: int| 0 <= j < i ==> (#[trigger] models[j]).id != id@,
        decreases profiles@.len() - i,
    {
        if text::same_text(profiles[i].id.as_str(), id) {
            proof {
                assert(models[i as int].id == id@);
            }
            return true;
        }
        i = i + 1;
    }
    false
}

impl StateModel {
    /// The state in the current schema: built-in profiles where there are none,
    /// an active profile that exists or else the default one, rules without
    /// gaps, and only the newest notification records.
    pub open spec fn normalized(self) -> StateModel {
        let profiles = if self.profiles.len() == 0 {
            default_profiles_spec()
        } else {
            self.profiles
        };
        StateModel {
            schema_version: 2,
            settings: SettingsModel {
                active_profile_id: if has_profile(profiles, self.settings.active_profile_id) {
                    self.settings.active_profile_id
                } else {
                    "home"@
                },
                ..self.settings
            },
            rules: self.rules.map_values(|e: (Seq<char>, RuleModel)| (e.0, e.1.normalized())),
            profiles,
            notifications: if self.notifications.len() > NOTIFICATION_LIMIT {
                self.notifications.skip(self.notifications.len() - NOTIFICATION_LIMIT)
            } else {
                self.notifications
            },
        }
    }
}

fn normalize_rule(rule: ProgramRule) -> (r: ProgramRule)
    ensures
        r@ == rule@.normalized(),
{
    let mut r: ProgramRule = rule;
    if r.profile_id.as_str().is_empty() {
        r.profile_id = "global".to_owned();
    }
    if r.protocol.as_str().is_empty() {
        r.protocol = "all".to_owned();
    }
    if r.direction.as_str().is_empty() {
        r.direction = "outbound".to_owned();
    }
    if !(text::same_text(r.decision.as_str(), "quarantine") || text::same_text(
        r.decision.as_str(),
        "block",
    ) || text::same_text(r.decision.as_str(), "allow")) {
        r.decision = "allow".to_owned();
    }
    r
}

/// Brings a state of any age into the current schema.
pub fn normalize_state(state: PersistentState) -> (r: PersistentState)
    ensures
        r@ == state@.normalized(),
        crate::book::distinct(state.rules@) ==> crate::book::distinct(r.rules@),
{
    let mut s: PersistentState = state;
    let ghost before = s@;
    s.schema_version = 2;
    if s.profiles.len() == 0 {
        s.profiles = default_profiles();
    }
    proof {
        if before.profiles.len() > 0 {
            assert(s@.profiles =~= before.profiles);
        }
    }
    if !find_profile(&s.profiles, s.settings.active_profile_id.as_str()) {
        s.settings.active_profile_id = "home".to_owned();
    }
    let n: usize = s.rules.len();
    let ghost old_rules = s.rules@;
    let mut i: usize = 0;
    while i < n
        invariant
            i <= n,
            n == old_rules.len(),
            s.rules@.len() == n,
            s.schema_version == 2,
            s@.profiles == before.normalized().profiles,
            s@.settings == before.normalized().settings,
            s@.notifications == before.notifications,
            old_rules == before.rules,
            forall|j: int| 0 <= j < n ==> (#[trigger] s.rules@[j]).0 == old_rules[j].0,
            forall|j: int|
                0 <= j < i ==> (#[trigger] s.rules@[j]).1 == old_rules[j].1.normalized(),
            forall|j: int| i <= j < n ==> (#[trigger] s.rules@[j]).1 == old_rules[j].1,
        decreases n - i,
    {
        let rule: ProgramRule = s.rules.replace_at(i, ProgramRule::default());
        let fixed: ProgramRule = normalize_rule(rule);
        let _ = s.rules.replace_at(i, fixed);
        i = i + 1;
    }
    proof {
        assert(s@.rules =~= before.normalized().rules) by {
            assert forall|j: int| 0 <= j < n implies #[trigger] s@.rules[j]
                == before.normalized().rules[j] by {
                assert(s.rules@[j].1 == old_rules[j].1.normalized());
            }
        }
    }
    let m: usize = s.notifications.len();
    if m > NOTIFICATION_LIMIT {
        let ghost all = s.notifications@;
        s.notifications = s.notifications.split_off(m - NOTIFICATION_LIMIT);
        proof {
            assert(s@.notifications =~= before.normalized().notifications);
        }
    }
    s
}

/// The state to start with: the one that was read, or the default where none
/// could be, in the current schema.
pub fn state_or_default(read: Option<PersistentState>) -> (r: PersistentState)
    ensures
        r@ == match read {
            Some(state) => state@.normalized(),
            None => StateModel::default_spec().normalized(),
        },
        (read matches Some(state) ==> crate::book::distinct(state.rules@))
            ==> crate::book::distinct(r.rules@),
{
    match read {
        Some(state) => normalize_state(state),
        None => normalize_state(PersistentState::default()),
    }
}

/// Normalising twice is normalising once.
pub proof fn normalize_is_idempotent(m: StateModel)
    ensures
        m.normalized().normalized() == m.normalized(),
{
    let n = m.normalized();
    reveal_strlit("global");
    reveal_strlit("all");
    reveal_strlit("outbound");
    assert(default_profiles_spec().len() == 5);
    assert forall|i: int| 0 <= i < n.rules.len() implies #[trigger] n.normalized().rules[i]
        == n.rules[i] by {
        let r = m.rules[i].1.normalized();
        assert(n.rules[i] == (m.rules[i].0, r));
        assert(r.normalized() =~= r);
    }
    assert(n.normalized().rules =~= n.rules);
    assert(n.normalized().notifications =~= n.notifications);
    assert(n.normalized() =~= n);
}

/// A normalised state is usable as it stands: it has profiles, its active
/// profile is one of them unless the default one is missing, every rule has one
/// of the three decisions and no empty scope, and the history is bounded.
pub proof fn normalized_state_is_valid(m: StateModel, i: int)
    ensures
        ({
            let n = m.normalized();
            &&& n.schema_version == 2
            &&& n.profiles.len() > 0
            &&& has_profile(n.profiles, n.settings.active_profile_id)
                || n.settings.active_profile_id == "home"@
            &&& n.notifications.len() <= NOTIFICATION_LIMIT
            &&& 0 <= i < n.rules.len() ==> {
                let r = n.rules[i].1;
                &&& r.decision == "allow"@ || r.blocking()
                &&& r.profile_id.len() > 0
                &&& r.protocol.len() > 0
                &&& r.direction.len() > 0
            }
        }),
{
    reveal_strlit("global");
    reveal_strlit("all");
    reveal_strlit("outbound");
    assert(default_profiles_spec().len() == 5);
}

/// The command that the operating system runs at logon: the executable in
/// quotes, started hidden.
pub fn autostart_command(exe: &str) -> (r: String)
    ensures
        r@ == seq!['"'] + exe@ + "\" --hidden"@,
{
    let mut r: String = String::new();
    r.push('"');
    r.append(exe);
    r.append("\" --hidden");
    proof {
        assert(r@ =~= seq!['"'] + exe@ + "\" --hidden"@);
    }
    r
}

/// The outcome of opening the startup key of the registry with a status code.
pub fn startup_key_opened(code: u32) -> (r: Result<(), String>)
    ensures
        match r {
            Ok(_) => code == 0,
            Err(e) => code != 0 && e@ == "Windows startup key could not be opened: "@
                + text::decimal(code as nat),
        },
{
    if code == 0 {
        Ok(())
    } else {
        let mut e: String = "Windows startup key could not be opened: ".to_owned();
        text::push_decimal(&mut e, code as u64);
        Err(e)
    }
}

/// The outcome of writing or deleting the startup value with a status code; a
/// value that was not there (code 2) is as good as deleted.
pub fn startup_value_changed(code: u32) -> (r: Result<(), String>)
    ensures
        match r {
            Ok(_) => code == 0 || code == 2,
            Err(e) => code != 0 && code != 2 && e@ == "Windows startup setting failed: "@
                + text::decimal(code as nat),
        },
{
    if code == 0 || code == 2 {
        Ok(())
    } else {
        let mut e: String = "Windows startup setting failed: ".to_owned();
        text::push_decimal(&mut e, code as u64);
        Err(e)
    }
}

/// Where there is no startup registry, there is nothing to set.
pub fn set_autostart(_enabled: bool) -> (r: Result<(), String>)
    ensures
        r is Ok,
{
    Ok(())
}

} // verus!
