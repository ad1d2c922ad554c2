//! The persistent state: what is read from disk comes back as it was kept, with
//! only its gaps filled in.

use vstd::prelude::*;
use vstd::string::*;

use crate::laws::words;
use crate::settings::{
    autostart_command, default_profiles, default_profiles_spec, normalize_state, schema_version,
    startup_key_opened, startup_value_changed, state_or_default, AppSettings, PersistentState,
    ProgramRule, RuleModel, RuleProfile, RuleTarget,
};
use crate::text;

verus! {

/// Normalising fills gaps and changes nothing else of a rule: one of the three
/// decisions stays and any other text becomes "allow"; a protocol, a direction
/// and a profile stay where they are not empty and get their defaults where they
/// are; all else stays.
pub open spec fn only_gaps_filled(before: RuleModel, after: RuleModel) -> bool {
    &&& before.decision == "allow"@ || before.decision == "block"@ || before.decision
        == "quarantine"@ ==> after.decision == before.decision
    &&& before.decision != "block"@ && before.decision != "quarantine"@ ==> after.decision
        == "allow"@
    &&& before.protocol.len() > 0 ==> after.protocol == before.protocol
    &&& before.protocol.len() == 0 ==> after.protocol == "all"@
    &&& before.direction.len() > 0 ==> after.direction == before.direction
    &&& before.direction.len() == 0 ==> after.direction == "outbound"@
    &&& before.profile_id.len() > 0 ==> after.profile_id == before.profile_id
    &&& before.profile_id.len() == 0 ==> after.profile_id == "global"@
    &&& after.app_path == before.app_path
    &&& after.app_name == before.app_name
    &&& after.app_id == before.app_id
    &&& after.app_package_sid == before.app_package_sid
    &&& after.target == before.target
    &&& after.expires_at_ms == before.expires_at_ms
    &&& after.created_at_ms == before.created_at_ms
    &&& after.updated_at_ms == before.updated_at_ms
}

/// Every rule of a state survives normalising, in its place and under its key,
/// with only its gaps filled in; it blocks afterwards exactly if it did before.
pub proof fn remembered_rules_survive(state: PersistentState, r: PersistentState, i: int)
    requires
        call_ensures(normalize_state, (state,), r),
        0 <= i < state@.rules.len(),
    ensures
        r@.rules.len() == state@.rules.len(),
        r@.rules[i].0 == state@.rules[i].0,
        only_gaps_filled(state@.rules[i].1, r@.rules[i].1),
        (r@.rules[i].1.decision == "block"@ || r@.rules[i].1.decision == "quarantine"@) <==> (
        state@.rules[i].1.decision == "block"@ || state@.rules[i].1.decision == "quarantine"@),
{
    words::decisions_differ();
}

/// Profiles, settings and the newest notifications survive normalising; only a
/// state without profiles gets the built-in ones, and only an active profile that
/// does not exist is replaced, by the home profile.
pub proof fn the_rest_of_the_state_survives(state: PersistentState, r: PersistentState)
    requires
        call_ensures(normalize_state, (state,), r),
    ensures
        ({
            let a = state@;
            let b = r@;
            let known = exists|i: int|
                0 <= i < b.profiles.len() && (#[trigger] b.profiles[i]).id
                    == a.settings.active_profile_id;
            &&& b.schema_version == 2
            &&& a.profiles.len() > 0 ==> b.profiles == a.profiles
            &&& a.profiles.len() == 0 ==> b.profiles == default_profiles_spec()
            &&& known ==> b.settings.active_profile_id == a.settings.active_profile_id
            &&& !known ==> b.settings.active_profile_id == "home"@
            &&& b.settings.launch_on_startup == a.settings.launch_on_startup
            &&& b.settings.close_to_tray == a.settings.close_to_tray
            &&& b.settings.ask_new_apps == a.settings.ask_new_apps
            &&& b.settings.default_deny_enabled == a.settings.default_deny_enabled
            &&& a.notifications.len() <= 400 ==> b.notifications == a.notifications
            &&& a.notifications.len() > 400 ==> b.notifications.len() == 400 && forall|i: int|
                0 <= i < 400 ==> #[trigger] b.notifications[i] == a.notifications[a.notifications.len()
                    - 400 + i]
        }),
{
    let a = state@;
    let b = r@;
    assert(crate::settings::has_profile(b.profiles, a.settings.active_profile_id) <==> exists|
        i: int,
    |
        0 <= i < b.profiles.len() && (#[trigger] b.profiles[i]).id
            == a.settings.active_profile_id);
}

/// What could be read at start is used as normalising leaves it, and where
/// nothing could be read the session starts as on the first day: no rules, the
/// built-in profiles, the home profile, and questions about new programs.
pub proof fn session_starts_from_the_state(
    state: PersistentState,
    r: PersistentState,
    normal: PersistentState,
    blank: PersistentState,
)
    requires
        call_ensures(state_or_default, (Some(state),), r),
        call_ensures(normalize_state, (state,), normal),
        call_ensures(state_or_default, (None::<PersistentState>,), blank),
    ensures
        r@ == normal@,
        blank@.schema_version == 2,
        blank@.rules.len() == 0,
        blank@.notifications.len() == 0,
        blank@.profiles == default_profiles_spec(),
        blank@.settings.active_profile_id == "home"@,
        blank@.settings.ask_new_apps,
        blank@.settings.close_to_tray,
        !blank@.settings.launch_on_startup,
        !blank@.settings.default_deny_enabled,
{
    assert(default_profiles_spec()[0].id == "home"@);
}

/// The built-in profiles, by id and in order: only public Wi-Fi and lockdown deny
/// by default.
pub proof fn built_in_profiles(r: Vec<RuleProfile>, i: int)
    requires
        call_ensures(default_profiles, (), r),
        0 <= i < r@.len(),
    ensures
        r@.len() == 5,
        r@[i].id@ == seq!["home"@, "public-wifi"@, "gaming"@, "work"@, "lockdown"@][i],
        r@[i].default_deny <==> r@[i].id@ == "public-wifi"@ || r@[i].id@ == "lockdown"@,
        r@[i].name@ == seq!["Home"@, "Public Wi-Fi"@, "Gaming"@, "Work"@, "Lockdown"@][i],
        r@[i].description@ == seq![
            "Trusted personal network"@,
            "Ask more, trust less"@,
            "Low-friction mode for known apps"@,
            "Productivity and VPN friendly"@,
            "Default deny for unknown outbound traffic"@,
        ][i],
{
    reveal_strlit("home");
    reveal_strlit("public-wifi");
    reveal_strlit("gaming");
    reveal_strlit("work");
    reveal_strlit("lockdown");
    assert("home"@[0] == 'h' && "public-wifi"@[0] == 'p' && "gaming"@[0] == 'g' && "work"@[0]
        == 'w' && "lockdown"@[0] == 'l');
    let m = r@.map_values(|p: RuleProfile| p@);
    assert(m[i] == r@[i]@);
    assert(m == default_profiles_spec());
    assert(default_profiles_spec().len() == 5 && m.len() == r@.len());
    assert(m[i].id == default_profiles_spec()[i].id);
}

/// A rule blocks exactly if its decision is to block or to quarantine.
pub proof fn two_decisions_block(rule: ProgramRule, r: bool)
    requires
        call_ensures(ProgramRule::is_blocking, (&rule,), r),
    ensures
        r <==> rule.decision@ == "block"@ || rule.decision@ == "quarantine"@,
{
}

/// What is not said in a state file: a rule allows all outbound traffic under
/// every profile, without end; a target is any; programs are asked about, and the
/// window closes to the tray.
pub proof fn unsaid_means_default(
    rule: ProgramRule,
    target: RuleTarget,
    settings: AppSettings,
    profile: RuleProfile,
    version: u32,
)
    requires
        call_ensures(<ProgramRule as Default>::default, (), rule),
        call_ensures(<RuleTarget as Default>::default, (), target),
        call_ensures(<AppSettings as Default>::default, (), settings),
        call_ensures(<RuleProfile as Default>::default, (), profile),
        call_ensures(schema_version, (), version),
    ensures
        rule@.decision == "allow"@ && rule@.protocol == "all"@ && rule@.direction == "outbound"@,
        rule@.profile_id == "global"@ && rule@.target is None && rule@.expires_at_ms is None,
        rule@.app_id.len() == 0 && rule@.app_package_sid.len() == 0,
        rule@.app_path.len() == 0 && rule@.app_name.len() == 0,
        rule@.created_at_ms == 0 && rule@.updated_at_ms == 0,
        target@.kind == "any"@ && target@.value.len() == 0 && target@.port is None,
        settings@.ask_new_apps && settings@.close_to_tray,
        !settings@.launch_on_startup && !settings@.default_deny_enabled,
        settings@.active_profile_id == "home"@,
        profile@.id == "home"@ && !profile@.default_deny,
        version == 2,
{
}

/// The command at logon is the executable between quotes, with the flag that
/// keeps the window hidden behind it.
pub proof fn command_runs_the_executable_hidden(exe: &str, r: String)
    requires
        call_ensures(autostart_command, (exe,), r),
    ensures
        r@.len() == exe@.len() + 11,
        r@[0] == '"',
        r@.subrange(1, 1 + exe@.len() as int) == exe@,
        r@.skip(1 + exe@.len() as int) == "\" --hidden"@,
{
    reveal_strlit("\" --hidden");
    assert(r@.subrange(1, 1 + exe@.len() as int) =~= exe@);
    assert(r@.skip(1 + exe@.len() as int) =~= "\" --hidden"@);
}

/// Startup succeeds on success; a value that is not there counts as deleted, a
/// key that cannot be opened does not.
pub proof fn startup_outcomes(code: u32, opened: Result<(), String>, changed: Result<(), String>)
    requires
        call_ensures(startup_key_opened, (code,), opened),
        call_ensures(startup_value_changed, (code,), changed),
    ensures
        opened is Ok <==> code == 0,
        changed is Ok <==> code == 0 || code == 2,
        opened matches Err(e) ==> e@ == "Windows startup key could not be opened: "@
            + text::decimal(code as nat),
        changed matches Err(e) ==> e@ == "Windows startup setting failed: "@ + text::decimal(
            code as nat,
        ),
{
}

} // verus!
