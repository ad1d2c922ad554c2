//! The boot-time firewall service.
//!
//! The desktop application owns prompts and rule editing. The service owns the
//! early, default-deny enforcement path: it reads the same state file and turns
//! it into filters that stay alive while the desktop application is closed.

use vstd::prelude::*;
use vstd::string::*;

use crate::apps;
use crate::book::Book;
use crate::parse;
use crate::parse::{parse_ip, parse_u8, split_once};
use crate::text;
use crate::wfp::filter;
use crate::wfp::filter::{
    conditions_for, target_matches_layer, FilterAction, FilterModel, FilterSpec, Flow, Identity,
    IdentityModel, Layer,
};
use crate::wfp::{AppProtocol, RemoteMatch};

verus! {

pub const SERVICE_NAME: &'static str = "m0untain-service";

#[derive(Debug, Clone, Copy, PartialEq, Eq, Structural)]
pub enum ServiceMode {
    AppOnly,
    InstalledStopped,
    RunningDefaultDeny,
}

#[derive(Debug, Clone, PartialEq, Eq)]
pub struct ServiceStatus {
    pub installed: bool,
    pub running: bool,
    pub mode: ServiceMode,
    pub message: String,
}

impl ServiceStatus {
    pub fn app_only() -> (r: Self)
        ensures
            !r.installed,
            !r.running,
            r.mode == ServiceMode::AppOnly,
            r.message@
                == "Windows service is not installed yet; m0untain is enforcing app-session rules while the UI is running."@,
    {
        ServiceStatus {
            installed: false,
            running: false,
            mode: ServiceMode::AppOnly,
            message: "Windows service is not installed yet; m0untain is enforcing app-session rules while the UI is running.".to_owned(),
        }
    }
}

/// The status as far as it is known without asking the service manager.
pub fn current_status() -> (r: ServiceStatus)
    ensures
        !r.installed,
        !r.running,
        r.mode == ServiceMode::AppOnly,
        r.message@
            == "Windows service is not installed yet; m0untain is enforcing app-session rules while the UI is running."@,
{
    ServiceStatus::app_only()
}

/// The settings that the service reads.
#[derive(Debug, PartialEq, Eq)]
pub struct AppSettings {
    pub active_profile_id: String,
    pub default_deny_enabled: bool,
}

#[verifier::ext_equal]
pub struct SettingsModel {
    pub active_profile_id: Seq<char>,
    pub default_deny_enabled: bool,
}

impl View for AppSettings {
    type V = SettingsModel;

    open spec fn view(&self) -> SettingsModel {
        SettingsModel {
            active_profile_id: self.active_profile_id@,
            default_deny_enabled: self.default_deny_enabled,
        }
    }
}

impl Default for AppSettings {
    fn default() -> (r: Self)
        ensures
            r@ == (SettingsModel {
                active_profile_id: Seq::empty(),
                default_deny_enabled: false,
            }),
    {
        AppSettings { active_profile_id: String::new(), default_deny_enabled: false }
    }
}

#[derive(Debug, PartialEq, Eq)]
pub struct RuleTarget {
    pub kind: String,
    pub value: String,
    pub port: Option<u16>,
}

#[verifier::ext_equal]
pub struct TargetModel {
    pub kind: Seq<char>,
    pub value: Seq<char>,
    pub port: Option<u16>,
}

impl View for RuleTarget {
    type V = TargetModel;

    open spec fn view(&self) -> TargetModel {
        TargetModel { kind: self.kind@, value: self.value@, port: self.port }
    }
}

impl Default for RuleTarget {
    fn default() -> (r: Self)
        ensures
            r@ == (TargetModel { kind: Seq::empty(), value: Seq::empty(), port: None }),
    {
        RuleTarget { kind: String::new(), value: String::new(), port: None }
    }
}

pub open spec fn target_option(t: Option<RuleTarget>) -> Option<TargetModel> {
    match t {
        Some(t) => Some(t@),
        None => None,
    }
}

/// A rule, as far as the service reads it.
#[derive(Debug, PartialEq, Eq)]
pub struct ProgramRule {
    pub app_path: String,
    pub app_id: Vec<u8>,
    pub decision: String,
    pub protocol: String,
    pub direction: String,
    pub target: Option<RuleTarget>,
    pub expires_at_ms: Option<u64>,
    pub profile_id: String,
}

#[verifier::ext_equal]
pub struct RuleModel {
    pub app_path: Seq<char>,
    pub app_id: Seq<u8>,
    pub decision: Seq<char>,
    pub protocol: Seq<char>,
    pub direction: Seq<char>,
    pub target: Option<TargetModel>,
    pub expires_at_ms: Option<u64>,
    pub profile_id: Seq<char>,
}

impl View for ProgramRule {
    type V = RuleModel;

    open spec fn view(&self) -> RuleModel {
        RuleModel {
            app_path: self.app_path@,
            app_id: self.app_id@,
            decision: self.decision@,
            protocol: self.protocol@,
            direction: self.direction@,
            target: target_option(self.target),
            expires_at_ms: self.expires_at_ms,
            profile_id: self.profile_id@,
        }
    }
}

impl Default for ProgramRule {
    fn default() -> (r: Self)
        ensures
            r@ == (RuleModel {
                app_path: Seq::empty(),
                app_id: Seq::empty(),
                decision: Seq::empty(),
                protocol: Seq::empty(),
                direction: Seq::empty(),
                target: None,
                expires_at_ms: None,
                profile_id: Seq::empty(),
            }),
    {
        ProgramRule {
            app_path: String::new(),
            app_id: Vec::new(),
            decision: String::new(),
            protocol: String::new(),
            direction: String::new(),
            target: None,
            expires_at_ms: None,
            profile_id: String::new(),
        }
    }
}

#[derive(Debug, PartialEq, Eq)]
pub struct RuleProfile {
    pub id: String,
    pub default_deny: bool,
}

#[verifier::ext_equal]
pub struct ProfileModel {
    pub id: Seq<char>,
    pub default_deny: bool,
}

impl View for RuleProfile {
    type V = ProfileModel;

    open spec fn view(&self) -> ProfileModel {
        ProfileModel { id: self.id@, default_deny: self.default_deny }
    }
}

impl Default for RuleProfile {
    fn default() -> (r: Self)
        ensures
            r@ == (ProfileModel { id: Seq::empty(), default_deny: false }),
    {
        RuleProfile { id: String::new(), default_deny: false }
    }
}

/// The state file, as far as the service reads it.
pub struct PersistentState {
    pub settings: AppSettings,
    pub rules: Book<ProgramRule>,
    pub profiles: Vec<RuleProfile>,
}

#[verifier::ext_equal]
pub struct StateModel {
    pub settings: SettingsModel,
    pub rules: Seq<(Seq<char>, RuleModel)>,
    pub profiles: Seq<ProfileModel>,
}

impl View for PersistentState {
    type V = StateModel;

    open spec fn view(&self) -> StateModel {
        StateModel {
            settings: self.settings@,
            rules: self.rules@,
            profiles: self.profiles@.map_values(|p: RuleProfile| p@),
        }
    }
}

impl Default for PersistentState {
    fn default() -> (r: Self)
        ensures
            r@ == (StateModel {
                settings: SettingsModel {
                    active_profile_id: Seq::empty(),
                    default_deny_enabled: false,
                },
                rules: Seq::empty(),
                profiles: Seq::empty(),
            }),
    {
        let r = PersistentState {
            settings: AppSettings::default(),
            rules: Book::new(),
            profiles: Vec::new(),
        };
        proof {
            assert(r@.profiles =~= Seq::empty());
        }
        r
    }
}

/// Whether the first profile with the given id denies by default.
pub open spec fn profile_denies(profiles: Seq<ProfileModel>, id: Seq<char>) -> bool
    decreases profiles.len(),
{
    if profiles.len() == 0 {
        false
    } else if profiles[0].id == id {
        profiles[0].default_deny
    } else {
        profile_denies(profiles.drop_first(), id)
    }
}

impl StateModel {
    /// Default-deny is on in the settings or in the active profile.
    pub open spec fn denies_by_default(self) -> bool {
        self.settings.default_deny_enabled || profile_denies(
            self.profiles,
            self.settings.active_profile_id,
        )
    }

    /// The profile whose rules apply.
    pub open spec fn active_profile(self) -> Seq<char> {
        if self.settings.active_profile_id.len() == 0 {
            "home"@
        } else {
            self.settings.active_profile_id
        }
    }
}

pub fn default_deny_enabled(state: &PersistentState) -> (r: bool)
    ensures
        r == state@.denies_by_default(),
{
    if state.settings.default_deny_enabled {
        return true;
    }
    let ghost all = state@.profiles;
    let mut i: usize = 0;
    proof {
        assert(all.skip(0) =~= all);
    }
    while i < state.profiles.len()
        invariant
            i <= state.profiles@.len(),
            !state.settings.default_deny_enabled,
            all == state@.profiles,
            profile_denies(all, state@.settings.active_profile_id) == profile_denies(
                all.skip(i as int),
                state@.settings.active_profile_id,
            ),
        decreases state.profiles@.len() - i,
    {
        proof {
            assert(all.skip(i as int).drop_first() =~= all.skip(i + 1));
        }
        if text::same_text(
            state.profiles[i].id.as_str(),
            state.settings.active_profile_id.as_str(),
        ) {
            return state.profiles[i].default_deny;
        }
        i = i + 1;
    }
    false
}

impl RuleModel {
    /// A rule without an end, or one whose end lies ahead.
    pub open spec fn active_at(self, now: u64) -> bool {
        self.expires_at_ms matches Some(end) ==> end > now
    }

    /// A global rule, one of the profile, or one that names no profile.
    pub open spec fn in_scope(self, profile: Seq<char>) -> bool {
        self.profile_id == "global"@ || self.profile_id == profile || self.profile_id.len() == 0
    }

    pub open spec fn outbound(self) -> bool {
        self.direction.len() == 0 || self.direction == "outbound"@ || self.direction == "both"@
    }

    /// The protocol that the rule is limited to; a text that is none means all.
    pub open spec fn protocol_scope(self) -> AppProtocol {
        if self.protocol == "tcp"@ {
            AppProtocol::Tcp
        } else if self.protocol == "udp"@ {
            AppProtocol::Udp
        } else {
            AppProtocol::All
        }
    }

    /// What the rule asks for, and with what weight: a block outweighs a permit.
    pub open spec fn asks(self) -> Option<(FilterAction, u8)> {
        if self.decision == "allow"@ {
            Some((FilterAction::Permit, 14))
        } else if self.decision == "block"@ || self.decision == "quarantine"@ {
            Some((FilterAction::Block, 15))
        } else {
            None
        }
    }

    /// Whether the identifier has to be found from the path.
    pub open spec fn needs_app_id(self) -> bool {
        self.app_id.len() == 0 && self.app_path.len() > 0
    }

    /// The identifier of the application: its own, or the one that was found
    /// for its path.
    pub open spec fn effective_app_id(self, found: Seq<u8>) -> Seq<u8> {
        if self.needs_app_id() {
            found
        } else {
            self.app_id
        }
    }

    pub open spec fn port(self) -> Option<u16> {
        match self.target {
            Some(t) => t.port,
            None => None,
        }
    }
}

pub fn rule_is_active(rule: &ProgramRule, now: u64) -> (r: bool)
    ensures
        r == rule@.active_at(now),
{
    match rule.expires_at_ms {
        Some(end) => end > now,
        None => true,
    }
}

pub fn rule_in_active_scope(rule: &ProgramRule, active_profile_id: &str) -> (r: bool)
    ensures
        r == rule@.in_scope(active_profile_id@),
{
    text::same_text(rule.profile_id.as_str(), "global") || text::same_text(
        rule.profile_id.as_str(),
        active_profile_id,
    ) || rule.profile_id.as_str().is_empty()
}

impl ProgramRule {
    pub fn direction_matches_outbound(&self) -> (r: bool)
        ensures
            r == self@.outbound(),
    {
        self.direction.as_str().is_empty() || text::same_text(
            self.direction.as_str(),
            "outbound",
        ) || text::same_text(self.direction.as_str(), "both")
    }
}

/// The remote side that a kind of target, in lower case, and its value name.
/// Domain targets and unknown kinds name none.
pub open spec fn remote_of(kind: Seq<char>, value: Seq<char>) -> Result<
    Option<RemoteMatch>,
    Seq<char>,
> {
    if kind == "ip"@ {
        match parse::ip_of(value) {
            Some(ip) => Ok(Some(RemoteMatch::Ip(ip))),
            None => Err("invalid target IP"@),
        }
    } else if kind == "cidr"@ {
        match parse::split_at_first(value, '/') {
            None => Err("invalid CIDR target"@),
            Some((network, prefix)) => match (parse::ip_of(network), parse::u8_of(prefix)) {
                (None, _) => Err("invalid CIDR network"@),
                (Some(_), None) => Err("invalid CIDR prefix"@),
                (Some(network), Some(prefix)) => Ok(Some(RemoteMatch::Cidr { network, prefix })),
            },
        }
    } else {
        Ok(None)
    }
}

/// The remote side that a rule is limited to. The kind of a target is read
/// without regard to case.
pub open spec fn target_remote(target: Option<TargetModel>) -> Result<
    Option<RemoteMatch>,
    Seq<char>,
> {
    match target {
        None => Ok(None),
        Some(t) => remote_of(apps::lowercase(t.kind), t.value),
    }
}

/// Whether a result is the given one.
pub open spec fn same_remote(
    r: Result<Option<RemoteMatch>, String>,
    m: Result<Option<RemoteMatch>, Seq<char>>,
) -> bool {
    match (r, m) {
        (Ok(a), Ok(b)) => a == b,
        (Err(e), Err(f)) => e@ == f,
        _ => false,
    }
}

/// The remote side that a kind of target, in lower case, and its value name.
pub fn remote_match(kind: &str, value: &str) -> (r: Result<Option<RemoteMatch>, String>)
    ensures
        same_remote(r, remote_of(kind@, value@)),
{
    if text::same_text(kind, "ip") {
        match parse_ip(value) {
            Some(ip) => Ok(Some(RemoteMatch::Ip(ip))),
            None => Err("invalid target IP".to_owned()),
        }
    } else if text::same_text(kind, "cidr") {
        match split_once(value, '/') {
            None => Err("invalid CIDR target".to_owned()),
            Some((network, prefix)) => match parse_ip(network.as_str()) {
                None => Err("invalid CIDR network".to_owned()),
                Some(network) => match parse_u8(prefix.as_str()) {
                    None => Err("invalid CIDR prefix".to_owned()),
                    Some(prefix) => Ok(Some(RemoteMatch::Cidr { network, prefix })),
                },
            },
        }
    } else {
        Ok(None)
    }
}

/// The remote side that a rule is limited to.
pub fn remote_match_from_target(target: &Option<RuleTarget>) -> (r: Result<
    Option<RemoteMatch>,
    String,
>)
    ensures
        same_remote(r, target_remote(target_option(*target))),
{
    match target {
        None => Ok(None),
        Some(t) => {
            let kind: String = apps::to_lowercase(t.kind.as_str());
            remote_match(kind.as_str(), t.value.as_str())
        },
    }
}

/// The filter of a rule at one layer.
pub open spec fn app_filter_at(
    app_id: Seq<u8>,
    layer: Layer,
    protocol: AppProtocol,
    remote: Option<RemoteMatch>,
    port: Option<u16>,
    action: FilterAction,
    weight: u8,
) -> FilterModel {
    FilterModel {
        layer,
        action,
        weight,
        conditions: filter::rule_conditions(IdentityModel::AppId(app_id), protocol, remote, port),
        name: "m0untain service app policy"@,
    }
}

/// The filter of a rule at one layer; none where the remote side does not occur
/// there.
pub fn app_filter(
    app_id: &Vec<u8>,
    layer: Layer,
    rule: &ProgramRule,
    remote: Option<RemoteMatch>,
    remote_port: Option<u16>,
    action: FilterAction,
    weight: u8,
) -> (r: Option<FilterSpec>)
    ensures
        match r {
            Some(f) => filter::matches_layer(remote, layer) && f@ == app_filter_at(
                app_id@,
                layer,
                rule@.protocol_scope(),
                remote,
                remote_port,
                action,
                weight,
            ),
            None => !filter::matches_layer(remote, layer),
        },
{
    if !target_matches_layer(remote, layer) {
        return None;
    }
    let protocol: AppProtocol = if text::same_text(rule.protocol.as_str(), "tcp") {
        AppProtocol::Tcp
    } else if text::same_text(rule.protocol.as_str(), "udp") {
        AppProtocol::Udp
    } else {
        AppProtocol::All
    };
    let identity: Identity = Identity::AppId(text::copy_bytes(app_id));
    Some(
        FilterSpec {
            layer,
            action,
            weight,
            conditions: conditions_for(&identity, protocol, remote, remote_port),
            name: "m0untain service app policy",
        },
    )
}

/// The filters of a rule at the two outbound layers.
pub open spec fn rule_filters(
    rule: RuleModel,
    found: Seq<u8>,
    action: FilterAction,
    weight: u8,
) -> Result<Seq<FilterModel>, Seq<char>> {
    let id = rule.effective_app_id(found);
    if id.len() == 0 {
        Ok(Seq::empty())
    } else {
        match target_remote(rule.target) {
            Err(e) => Err(e),
            Ok(remote) => {
                let at = |layer: Layer|
                    app_filter_at(
                        id,
                        layer,
                        rule.protocol_scope(),
                        remote,
                        rule.port(),
                        action,
                        weight,
                    );
                Ok(
                    if remote is None {
                        seq![at(Layer::ConnectV4), at(Layer::ConnectV6)]
                    } else if filter::matches_layer(remote, Layer::ConnectV4) {
                        seq![at(Layer::ConnectV4)]
                    } else {
                        seq![at(Layer::ConnectV6)]
                    },
                )
            },
        }
    }
}

/// Appends the filters of a rule. `found` is the identifier that was found for
/// the rule's path, or empty.
pub fn add_rule_filters(
    out: &mut Vec<FilterSpec>,
    rule: &ProgramRule,
    found: &Vec<u8>,
    action: FilterAction,
    weight: u8,
) -> (r: Result<(), String>)
    ensures
        match rule_filters(rule@, found@, action, weight) {
            Ok(f) => r is Ok && filter::filters_view(final(out)@) == filter::filters_view(
                old(out)@,
            ) + f,
            Err(e) => r matches Err(x) && x@ == e && filter::filters_view(final(out)@)
                == filter::filters_view(old(out)@),
        },
{
    let own: bool = rule.app_id.len() > 0 || rule.app_path.as_str().is_empty();
    let app_id: &Vec<u8> = if own {
        &rule.app_id
    } else {
        found
    };
    if app_id.len() == 0 {
        proof {
            assert(filter::filters_view(out@) =~= filter::filters_view(out@) + Seq::empty());
        }
        return Ok(());
    }
    let remote: Option<RemoteMatch> = match remote_match_from_target(&rule.target) {
        Ok(m) => m,
        Err(e) => {
            return Err(e);
        },
    };
    let port: Option<u16> = match &rule.target {
        Some(t) => t.port,
        None => None,
    };
    if let Some(f) = app_filter(app_id, Layer::ConnectV4, rule, remote, port, action, weight) {
        out.push(f);
    }
    if let Some(f) = app_filter(app_id, Layer::ConnectV6, rule, remote, port, action, weight) {
        out.push(f);
    }
    proof {
        filter::target_has_an_outbound_layer(remote);
        let f = rule_filters(rule@, found@, action, weight)->Ok_0;
        assert(filter::filters_view(out@) =~= filter::filters_view(old(out)@) + f);
    }
    Ok(())
}

/// The filter that denies outbound connections by default at one layer.
pub open spec fn default_deny_at(layer: Layer) -> FilterModel {
    FilterModel {
        layer,
        action: FilterAction::Block,
        weight: 1,
        conditions: Seq::empty(),
        name: "m0untain default deny outbound"@,
    }
}

pub fn default_deny_filter(layer: Layer) -> (r: FilterSpec)
    ensures
        r@ == default_deny_at(layer),
{
    let r = FilterSpec {
        layer,
        action: FilterAction::Block,
        weight: 1,
        conditions: Vec::new(),
        name: "m0untain default deny outbound",
    };
    proof {
        assert(r@.conditions =~= Seq::empty());
    }
    r
}

/// The filters to install for a state, in order. Where a rule is in error, only
/// those of the rules before it are installed, and the error is reported.
pub struct Plan {
    pub rules: Vec<FilterSpec>,
    pub error: Option<String>,
    pub default_deny: Vec<FilterSpec>,
}

#[verifier::ext_equal]
pub struct PlanModel {
    pub rules: Seq<FilterModel>,
    pub error: Option<Seq<char>>,
    pub default_deny: Seq<FilterModel>,
}

impl View for Plan {
    type V = PlanModel;

    open spec fn view(&self) -> PlanModel {
        PlanModel {
            rules: filter::filters_view(self.rules@),
            error: text::text_option(self.error),
            default_deny: filter::filters_view(self.default_deny@),
        }
    }
}

/// What one rule contributes at a time, under a profile.
pub open spec fn contribution(rule: RuleModel, found: Seq<u8>, now: u64, profile: Seq<char>) -> Result<
    Seq<FilterModel>,
    Seq<char>,
> {
    if rule.active_at(now) && rule.in_scope(profile) && rule.outbound() {
        match rule.asks() {
            Some((action, weight)) => rule_filters(rule, found, action, weight),
            None => Ok(Seq::empty()),
        }
    } else {
        Ok(Seq::empty())
    }
}

impl StateModel {
    /// The filters of the first `n` rules, up to the first error.
    pub open spec fn rules_plan(self, found: Seq<Seq<u8>>, now: u64, n: int) -> (
        Seq<FilterModel>,
        Option<Seq<char>>,
    )
        decreases n,
    {
        if n <= 0 {
            (Seq::empty(), None)
        } else {
            let (front, error) = self.rules_plan(found, now, n - 1);
            if error is Some {
                (front, error)
            } else {
                match contribution(
                    self.rules[n - 1].1,
                    found[n - 1],
                    now,
                    self.active_profile(),
                ) {
                    Ok(f) => (front + f, None),
                    Err(e) => (front, Some(e)),
                }
            }
        }
    }

    /// The filters to install.
    pub open spec fn plan(self, found: Seq<Seq<u8>>, now: u64) -> PlanModel {
        let (rules, error) = self.rules_plan(found, now, self.rules.len() as int);
        PlanModel {
            rules,
            error,
            default_deny: if error is None && self.denies_by_default() {
                seq![default_deny_at(Layer::ConnectV4), default_deny_at(Layer::ConnectV6)]
            } else {
                Seq::empty()
            },
        }
    }
}

/// Byte strings.
pub open spec fn bytes_list(v: Seq<Vec<u8>>) -> Seq<Seq<u8>> {
    v.map_values(|b: Vec<u8>| b@)
}

/// `paths` holds, for every rule, the path for which an identifier has to be
/// found, or none where the rule needs no identifier.
pub open spec fn lists_paths(m: StateModel, now: u64, paths: Seq<Option<String>>) -> bool {
    forall|i: int|
        0 <= i < paths.len() ==> text::text_option(#[trigger] paths[i]) == ({
            let rule = m.rules[i].1;
            if rule.active_at(now) && rule.in_scope(m.active_profile()) && rule.outbound()
                && rule.asks() is Some && rule.needs_app_id() {
                Some(rule.app_path)
            } else {
                None
            }
        })
}

/// The paths for which an identifier has to be found, one entry per rule: the
/// path, or none where the rule needs no identifier.
pub fn paths_to_resolve(state: &PersistentState, now: u64) -> (r: Vec<Option<String>>)
    ensures
        r@.len() == state@.rules.len(),
        lists_paths(state@, now, r@),
{
    let profile: String = active_profile(state);
    let mut out: Vec<Option<String>> = Vec::new();
    let mut i: usize = 0;
    while i < state.rules.len()
        invariant
            i <= state.rules@.len(),
            profile@ == state@.active_profile(),
            out@.len() == i,
            forall|j: int|
                0 <= j < i ==> text::text_option(#[trigger] out@[j]) == ({
                    let rule = state@.rules[j].1;
                    if rule.active_at(now) && rule.in_scope(state@.active_profile())
                        && rule.outbound() && rule.asks() is Some && rule.needs_app_id() {
                        Some(rule.app_path)
                    } else {
                        None
                    }
                }),
        decreases state.rules@.len() - i,
    {
        let rule: &ProgramRule = state.rules.value_at(i);
        if rule_is_active(rule, now) && rule_in_active_scope(rule, profile.as_str())
            && rule.direction_matches_outbound() && asked(rule).is_some() && rule.app_id.len() == 0
            && !rule.app_path.as_str().is_empty() {
            out.push(Some(rule.app_path.clone()));
        } else {
            out.push(None);
        }
        i = i + 1;
    }
    out
}

fn active_profile(state: &PersistentState) -> (r: String)
    ensures
        r@ == state@.active_profile(),
{
    if state.settings.active_profile_id.as_str().is_empty() {
        "home".to_owned()
    } else {
        state.settings.active_profile_id.clone()
    }
}

fn asked(rule: &ProgramRule) -> (r: Option<(FilterAction, u8)>)
    ensures
        r == rule@.asks(),
{
    if text::same_text(rule.decision.as_str(), "allow") {
        Some((FilterAction::Permit, 14))
    } else if text::same_text(rule.decision.as_str(), "block") || text::same_text(
        rule.decision.as_str(),
        "quarantine",
    ) {
        Some((FilterAction::Block, 15))
    } else {
        None
    }
}

/// The filters to install for a state. `found` holds, for every rule, the
/// identifier that was found for its path, or nothing.
pub fn apply_plan(state: &PersistentState, found: &Vec<Vec<u8>>, now: u64) -> (r: Plan)
    requires
        found@.len() == state@.rules.len(),
    ensures
        r@ == state@.plan(bytes_list(found@), now),
{
    let profile: String = active_profile(state);
    let ghost ids = bytes_list(found@);
    let mut rules: Vec<FilterSpec> = Vec::new();
    let mut i: usize = 0;
    proof {
        assert(filter::filters_view(rules@) =~= Seq::empty());
    }
    while i < state.rules.len()
        invariant
            i <= state.rules@.len(),
            found@.len() == state@.rules.len(),
            ids == bytes_list(found@),
            profile@ == state@.active_profile(),
            state@.rules_plan(ids, now, i as int) == (
                filter::filters_view(rules@),
                None::<Seq<char>>,
            ),
        decreases state.rules@.len() - i,
    {
        let rule: &ProgramRule = state.rules.value_at(i);
        let ghost before = filter::filters_view(rules@);
        let mut failed: Option<String> = None;
        proof {
            assert(ids[i as int] == found@[i as int]@);
            assert(before + Seq::empty() =~= before);
        }
        if rule_is_active(rule, now) && rule_in_active_scope(rule, profile.as_str())
            && rule.direction_matches_outbound() {
            if let Some((action, weight)) = asked(rule) {
                if let Err(e) = add_rule_filters(&mut rules, rule, &found[i], action, weight) {
                    failed = Some(e);
                }
            }
        }
        if failed.is_some() {
            proof {
                lemma_error_stays(state@, ids, now, i + 1, state@.rules.len() as int);
            }
            let r = Plan { rules, error: failed, default_deny: Vec::new() };
            proof {
                assert(r@.default_deny =~= Seq::empty());
            }
            return r;
        }
        i = i + 1;
    }
    let mut deny: Vec<FilterSpec> = Vec::new();
    if default_deny_enabled(state) {
        deny.push(default_deny_filter(Layer::ConnectV4));
        deny.push(default_deny_filter(Layer::ConnectV6));
    }
    let r = Plan { rules, error: None, default_deny: deny };
    proof {
        assert(r@.default_deny =~= state@.plan(ids, now).default_deny);
    }
    r
}

proof fn lemma_error_stays(m: StateModel, found: Seq<Seq<u8>>, now: u64, i: int, n: int)
    requires
        0 <= i <= n,
        m.rules_plan(found, now, i).1 is Some,
    ensures
        m.rules_plan(found, now, n) == m.rules_plan(found, now, i),
    decreases n - i,
{
    if i < n {
        lemma_error_stays(m, found, now, i, n - 1);
    }
}

/// What a filter of a plan is for.
#[derive(Debug, Clone, Copy, PartialEq, Eq, Structural)]
pub enum Origin {
    Rule,
    DefaultDeny,
}

/// The filters that the service has installed.
pub struct Policy {
    filter_ids: Vec<u64>,
}

impl View for Policy {
    type V = Seq<u64>;

    closed spec fn view(&self) -> Seq<u64> {
        self.filter_ids@
    }
}

impl Policy {
    pub fn new() -> (r: Self)
        ensures
            r@ == Seq::<u64>::empty(),
    {
        Policy { filter_ids: Vec::new() }
    }

    /// Forgets all filters and hands out their ids, for each to be deleted.
    pub fn clear(&mut self) -> (r: Vec<u64>)
        ensures
            r@ == old(self)@,
            final(self)@ == Seq::<u64>::empty(),
    {
        let r: Vec<u64> = self.filter_ids.split_off(0);
        proof {
            assert(r@ =~= old(self)@);
            assert(self@ =~= Seq::<u64>::empty());
        }
        r
    }

    /// Takes note of what became of a filter that was to be added.
    pub fn added(&mut self, origin: Origin, status: u32, id: u64) -> (r: Result<(), String>)
        ensures
            match r {
                Ok(_) => status == 0 && final(self)@ == old(self)@.push(id),
                Err(e) => status != 0 && final(self)@ == old(self)@ && e@ == (match origin {
                    Origin::Rule => "FwpmFilterAdd0(service app policy) failed: "@,
                    Origin::DefaultDeny => "FwpmFilterAdd0(default deny) failed: "@,
                }) + text::decimal(status as nat),
            },
    {
        if status == 0 {
            self.filter_ids.push(id);
            return Ok(());
        }
        let mut e: String = match origin {
            Origin::Rule => "FwpmFilterAdd0(service app policy) failed: ".to_owned(),
            Origin::DefaultDeny => "FwpmFilterAdd0(default deny) failed: ".to_owned(),
        };
        text::push_decimal(&mut e, status as u64);
        Err(e)
    }
}

/// The outcome of adding the service's sublayer.
pub fn sublayer_added(status: u32) -> (r: Result<(), String>)
    ensures
        match r {
            Ok(_) => status == 0,
            Err(e) => status != 0 && e@ == "FwpmSubLayerAdd0 failed: "@ + text::decimal(
                status as nat,
            ),
        },
{
    if status == 0 {
        return Ok(());
    }
    let mut e: String = "FwpmSubLayerAdd0 failed: ".to_owned();
    text::push_decimal(&mut e, status as u64);
    Err(e)
}

/// What the policy loop does next.
#[derive(Debug, Clone, Copy, PartialEq, Eq, Structural)]
pub enum LoopAction {
    /// Nothing changed.
    Wait,
    /// Load the state file, and apply it where it can be read.
    Reload,
    /// Try to open the packet filter's engine.
    Reopen,
}

/// The policy loop: it watches when the state file was last modified.
pub struct PolicyLoop {
    last_modified: Option<u128>,
}

impl View for PolicyLoop {
    type V = Option<u128>;

    closed spec fn view(&self) -> Option<u128> {
        self.last_modified
    }
}

impl PolicyLoop {
    pub fn new() -> (r: Self)
        ensures
            r@ is None,
    {
        PolicyLoop { last_modified: None }
    }

    /// Takes note of when the file was last modified, where that is known, and
    /// whether the engine is open.
    pub fn observe(&mut self, modified: Option<u128>, engine_open: bool) -> (r: LoopAction)
        ensures
            final(self)@ == modified,
            r == if modified == old(self)@ {
                LoopAction::Wait
            } else if engine_open {
                LoopAction::Reload
            } else {
                LoopAction::Reopen
            },
    {
        let same: bool = match (modified, self.last_modified) {
            (Some(a), Some(b)) => a == b,
            (None, None) => true,
            _ => false,
        };
        self.last_modified = modified;
        if same {
            LoopAction::Wait
        } else if engine_open {
            LoopAction::Reload
        } else {
            LoopAction::Reopen
        }
    }
}

/// Whether a control code asks the service to stop: a stop (1) or a shutdown (5)
/// of the machine.
pub fn asks_to_stop(control: u32) -> (r: bool)
    ensures
        r == (control == 1 || control == 5),
{
    control == 1 || control == 5
}

/// The place of the first `--state` after the program's name.
pub open spec fn state_flag(args: Seq<Seq<char>>, i: int) -> Option<int>
    decreases args.len() - i,
{
    if i < 0 || i >= args.len() {
        None
    } else if args[i] == "--state"@ {
        Some(i)
    } else {
        state_flag(args, i + 1)
    }
}

/// Texts.
pub open spec fn texts(v: Seq<String>) -> Seq<Seq<char>> {
    v.map_values(|s: String| s@)
}

/// Which argument is the path of the state file: the one behind the first
/// `--state`.
pub fn state_path_argument(args: &Vec<String>) -> (r: Result<usize, String>)
    ensures
        match r {
            Ok(i) => state_flag(texts(args@), 1) == Some(i - 1) && i < args@.len(),
            Err(e) => e@ == "--state <path-to-state.json> is required"@ && match state_flag(
                texts(args@),
                1,
            ) {
                Some(i) => i + 1 >= args@.len(),
                None => true,
            },
        },
{
    let n: usize = args.len();
    let mut i: usize = 1;
    while i < n
        invariant
            1 <= i,
            n == args@.len(),
            state_flag(texts(args@), 1) == state_flag(texts(args@), i as int),
        decreases n - i,
    {
        if text::same_text(args[i].as_str(), "--state") {
            if i + 1 < n {
                return Ok(i + 1);
            }
            return Err("--state <path-to-state.json> is required".to_owned());
        }
        i = i + 1;
    }
    Err("--state <path-to-state.json> is required".to_owned())
}

// What the plan promises.

/// Whether a filter is one that a rule asks for.
pub open spec fn from_a_rule(f: FilterModel) -> bool {
    &&& f.layer == Layer::ConnectV4 || f.layer == Layer::ConnectV6
    &&& f.action == FilterAction::Permit ==> f.weight == 14
    &&& f.action == FilterAction::Block ==> f.weight == 15
}

proof fn lemma_rules_plan(m: StateModel, found: Seq<Seq<u8>>, now: u64, n: int)
    ensures
        forall|i: int|
            0 <= i < m.rules_plan(found, now, n).0.len() ==> from_a_rule(
                #[trigger] m.rules_plan(found, now, n).0[i],
            ),
    decreases n,
{
    if n > 0 {
        lemma_rules_plan(m, found, now, n - 1);
        let (front, error) = m.rules_plan(found, now, n - 1);
        let (all, _) = m.rules_plan(found, now, n);
        assert forall|i: int| 0 <= i < all.len() implies from_a_rule(#[trigger] all[i]) by {
            if i < front.len() {
                assert(from_a_rule(front[i]));
            } else {
                let f = contribution(m.rules[n - 1].1, found[n - 1], now, m.active_profile())->Ok_0;
                assert(all[i] == f[i - front.len()]);
            }
        }
    }
}

/// All filters of a plan concern outbound connections, a block of a rule
/// outweighs every permit, and both outweigh the default deny.
pub proof fn plan_is_ordered_by_weight(m: StateModel, found: Seq<Seq<u8>>, now: u64, i: int)
    ensures
        0 <= i < m.plan(found, now).rules.len() ==> from_a_rule(m.plan(found, now).rules[i]),
        0 <= i < m.plan(found, now).default_deny.len() ==> ({
            let f = m.plan(found, now).default_deny[i];
            &&& f == default_deny_at(f.layer)
            &&& f.layer == Layer::ConnectV4 || f.layer == Layer::ConnectV6
            &&& f.weight < 14
        }),
{
    lemma_rules_plan(m, found, now, m.rules.len() as int);
}

/// A rule that has expired, is out of scope, or does not concern outbound
/// connections contributes nothing.
pub proof fn inactive_rule_contributes_nothing(
    rule: RuleModel,
    found: Seq<u8>,
    now: u64,
    profile: Seq<char>,
)
    requires
        !rule.active_at(now) || !rule.in_scope(profile) || !rule.outbound(),
    ensures
        contribution(rule, found, now, profile) == Ok::<Seq<FilterModel>, Seq<char>>(Seq::empty()),
{
}

/// Default-deny filters are in a plan exactly if default-deny is on and no rule
/// is in error.
pub proof fn default_deny_is_planned_when_on(m: StateModel, found: Seq<Seq<u8>>, now: u64)
    ensures
        m.plan(found, now).default_deny.len() > 0 <==> m.denies_by_default() && m.plan(
            found,
            now,
        ).error is None,
        m.plan(found, now).default_deny.len() > 0 ==> m.plan(found, now).default_deny == seq![
            default_deny_at(Layer::ConnectV4),
            default_deny_at(Layer::ConnectV6),
        ],
{
}

/// All filters of a plan.
pub open spec fn all_filters(p: PlanModel) -> Seq<FilterModel> {
    p.rules + p.default_deny
}

pub open spec fn applies(f: FilterModel, layer: Layer, flow: Flow) -> bool {
    f.layer == layer && filter::all_hold(f.conditions, flow)
}

/// Among the filters, one that applies and that no other that applies outweighs.
pub open spec fn decides(filters: Seq<FilterModel>, k: int, layer: Layer, flow: Flow) -> bool {
    &&& 0 <= k < filters.len()
    &&& applies(filters[k], layer, flow)
    &&& forall|j: int|
        0 <= j < filters.len() && applies(#[trigger] filters[j], layer, flow) ==> filters[j].weight
            <= filters[k].weight
}

/// An attempt that a blocking rule is about is blocked, whatever other rules
/// permit.
pub proof fn block_rules_win(
    m: StateModel,
    found: Seq<Seq<u8>>,
    now: u64,
    i: int,
    k: int,
    layer: Layer,
    flow: Flow,
)
    requires
        0 <= i < m.plan(found, now).rules.len(),
        m.plan(found, now).rules[i].action == FilterAction::Block,
        applies(m.plan(found, now).rules[i], layer, flow),
        decides(all_filters(m.plan(found, now)), k, layer, flow),
    ensures
        all_filters(m.plan(found, now))[k].action == FilterAction::Block,
{
    let p = m.plan(found, now);
    let all = all_filters(p);
    lemma_rules_plan(m, found, now, m.rules.len() as int);
    assert(all[i] == p.rules[i]);
    assert(from_a_rule(p.rules[i]));
    if k < p.rules.len() {
        assert(all[k] == p.rules[k]);
        assert(from_a_rule(p.rules[k]));
    } else {
        assert(all[k] == p.default_deny[k - p.rules.len()]);
    }
}

/// An attempt that a rule permits and no rule blocks is permitted, even where
/// default-deny is on.
pub proof fn permitted_unless_blocked(
    m: StateModel,
    found: Seq<Seq<u8>>,
    now: u64,
    i: int,
    k: int,
    layer: Layer,
    flow: Flow,
)
    requires
        0 <= i < m.plan(found, now).rules.len(),
        m.plan(found, now).rules[i].action == FilterAction::Permit,
        applies(m.plan(found, now).rules[i], layer, flow),
        forall|j: int|
            0 <= j < m.plan(found, now).rules.len() && applies(
                #[trigger] m.plan(found, now).rules[j],
                layer,
                flow,
            ) ==> m.plan(found, now).rules[j].action == FilterAction::Permit,
        decides(all_filters(m.plan(found, now)), k, layer, flow),
    ensures
        all_filters(m.plan(found, now))[k].action == FilterAction::Permit,
{
    let p = m.plan(found, now);
    let all = all_filters(p);
    lemma_rules_plan(m, found, now, m.rules.len() as int);
    assert(all[i] == p.rules[i]);
    assert(from_a_rule(p.rules[i]));
    if k < p.rules.len() {
        assert(all[k] == p.rules[k]);
    } else {
        assert(all[k] == p.default_deny[k - p.rules.len()]);
    }
}

/// Where default-deny is on and no rule is in error, an outbound attempt that
/// no rule is about is blocked.
pub proof fn unknown_traffic_is_denied(
    m: StateModel,
    found: Seq<Seq<u8>>,
    now: u64,
    layer: Layer,
    flow: Flow,
)
    requires
        m.denies_by_default(),
        m.plan(found, now).error is None,
        layer == Layer::ConnectV4 || layer == Layer::ConnectV6,
        forall|j: int|
            0 <= j < m.plan(found, now).rules.len() ==> !applies(
                #[trigger] m.plan(found, now).rules[j],
                layer,
                flow,
            ),
    ensures
        exists|k: int| #[trigger] decides(all_filters(m.plan(found, now)), k, layer, flow),
        forall|k: int| #[trigger]
            decides(all_filters(m.plan(found, now)), k, layer, flow) ==> all_filters(
                m.plan(found, now),
            )[k].action == FilterAction::Block,
{
    let p = m.plan(found, now);
    let all = all_filters(p);
    let n = p.rules.len() as int;
    let w = if layer == Layer::ConnectV4 {
        n
    } else {
        n + 1
    };
    assert forall|j: int| 0 <= j < n implies !applies(#[trigger] all[j], layer, flow) by {
        assert(all[j] == p.rules[j]);
    }
    assert(all[n] == default_deny_at(Layer::ConnectV4));
    assert(all[n + 1] == default_deny_at(Layer::ConnectV6));
    assert(decides(all, w, layer, flow));
    assert forall|k: int| #[trigger] decides(all, k, layer, flow) implies all[k].action
        == FilterAction::Block by {
        assert(k == n || k == n + 1);
    }
}

} // verus!
