//! The boot-time service: the state file becomes outbound filters.

use vstd::prelude::*;
use vstd::string::*;

use crate::apps;
use crate::ip::IpAddr;
use crate::laws::words;
use crate::parse;
use crate::service;
use crate::service::{
    app_filter, apply_plan, asks_to_stop, current_status, default_deny_enabled,
    default_deny_filter, paths_to_resolve, remote_match, remote_match_from_target,
    rule_in_active_scope, rule_is_active, state_path_argument, sublayer_added, LoopAction, Origin,
    PersistentState, Plan, Policy, PolicyLoop, ProfileModel, ProgramRule, RuleModel, RuleTarget,
    ServiceMode, ServiceStatus, StateModel,
};
use crate::text;
use crate::wfp::filter;
use crate::wfp::filter::{FilterAction, FilterSpec, Flow, Layer};
use crate::wfp::{AppProtocol, RemoteMatch};

verus! {

/// The profile at `i` is the first one with the given id.
pub open spec fn first_with(profiles: Seq<ProfileModel>, id: Seq<char>, i: int) -> bool {
    &&& 0 <= i < profiles.len()
    &&& profiles[i].id == id
    &&& forall|j: int| 0 <= j < i ==> (#[trigger] profiles[j]).id != id
}

proof fn lemma_profile_denies(profiles: Seq<ProfileModel>, id: Seq<char>, i: int)
    requires
        first_with(profiles, id, i),
    ensures
        service::profile_denies(profiles, id) == profiles[i].default_deny,
    decreases profiles.len(),
{
    if i > 0 {
        let tail = profiles.drop_first();
        assert(profiles[0].id != id);
        assert forall|j: int| 0 <= j < i - 1 implies (#[trigger] tail[j]).id != id by {
            assert(tail[j] == profiles[j + 1]);
        }
        lemma_profile_denies(tail, id, i - 1);
    }
}

proof fn lemma_no_profile_denies(profiles: Seq<ProfileModel>, id: Seq<char>)
    requires
        forall|j: int| 0 <= j < profiles.len() ==> (#[trigger] profiles[j]).id != id,
    ensures
        !service::profile_denies(profiles, id),
    decreases profiles.len(),
{
    if profiles.len() > 0 {
        let tail = profiles.drop_first();
        assert(profiles[0].id != id);
        assert forall|j: int| 0 <= j < tail.len() implies (#[trigger] tail[j]).id != id by {
            assert(tail[j] == profiles[j + 1]);
        }
        lemma_no_profile_denies(tail, id);
    }
}

/// Default-deny is on exactly if the settings turn it on or the active profile
/// does, wherever in the list that profile stands; a profile that does not exist
/// turns on nothing.
pub proof fn default_deny_follows_settings_and_active_profile(
    state: PersistentState,
    r: bool,
    i: int,
)
    requires
        call_ensures(default_deny_enabled, (&state,), r),
    ensures
        first_with(state@.profiles, state.settings.active_profile_id@, i) ==> r == (
        state.settings.default_deny_enabled || state@.profiles[i].default_deny),
        (forall|j: int|
            0 <= j < state@.profiles.len() ==> (#[trigger] state@.profiles[j]).id
                != state.settings.active_profile_id@) ==> r == state.settings.default_deny_enabled,
{
    let id = state.settings.active_profile_id@;
    if first_with(state@.profiles, id, i) {
        lemma_profile_denies(state@.profiles, id, i);
    }
    if forall|j: int|
        0 <= j < state@.profiles.len() ==> (#[trigger] state@.profiles[j]).id != id {
        lemma_no_profile_denies(state@.profiles, id);
    }
}

/// A rule without an end is in force, and one with an end is before its end.
pub proof fn rules_are_in_force_until_their_end(rule: ProgramRule, now: u64, r: bool)
    requires
        call_ensures(rule_is_active, (&rule, now), r),
    ensures
        rule.expires_at_ms is None ==> r,
        rule.expires_at_ms matches Some(end) ==> (r <==> now < end),
{
}

/// A rule holds under every profile where it is global or names none, and under
/// its own profile otherwise.
pub proof fn rules_hold_under_their_profile(rule: ProgramRule, profile: &str, r: bool)
    requires
        call_ensures(rule_in_active_scope, (&rule, profile), r),
    ensures
        rule.profile_id@ == "global"@ || rule.profile_id@.len() == 0 ==> r,
        rule.profile_id@ != "global"@ && rule.profile_id@.len() > 0 ==> (r <==> rule.profile_id@
            == profile@),
{
}

/// A rule concerns outbound connections unless it says inbound, or anything else
/// that is neither outbound nor both.
pub proof fn rules_concern_outbound_unless_they_say_otherwise(rule: ProgramRule, r: bool)
    requires
        call_ensures(ProgramRule::direction_matches_outbound, (&rule,), r),
    ensures
        rule.direction@.len() == 0 ==> r,
        rule.direction@ == "outbound"@ ==> r,
        rule.direction@ == "both"@ ==> r,
        rule.direction@ == "inbound"@ ==> !r,
        rule.direction@.len() > 0 && rule.direction@ != "outbound"@ && rule.direction@ != "both"@
            ==> !r,
{
    words::directions_differ();
}

/// A target of kind "ip" is the address that its value reads as; of kind "cidr",
/// the network before the slash with the prefix behind it; any other kind limits
/// nothing.
pub proof fn targets_are_read_by_kind(
    kind: &str,
    value: &str,
    r: Result<Option<RemoteMatch>, String>,
)
    requires
        call_ensures(remote_match, (kind, value), r),
    ensures
        kind@ == "ip"@ ==> match parse::ip_of(value@) {
            Some(a) => r == Ok::<Option<RemoteMatch>, String>(Some(RemoteMatch::Ip(a))),
            None => r matches Err(e) && e@ == "invalid target IP"@,
        },
        kind@ == "cidr"@ ==> match r {
            Ok(m) => m matches Some(RemoteMatch::Cidr { network, prefix }) && exists|slash: int|
                0 <= slash < value@.len() && #[trigger] value@[slash] == '/' && parse::ip_of(
                    value@.take(slash),
                ) == Some(network) && parse::u8_of(value@.skip(slash + 1)) == Some(prefix),
            Err(_) => true,
        },
        kind@ != "ip"@ && kind@ != "cidr"@ ==> r == Ok::<Option<RemoteMatch>, String>(None),
{
    words::kinds_differ();
    if kind@ == "cidr"@ {
        lemma_split(value@, '/');
        if let Some((a, b)) = parse::split_at_first(value@, '/') {
            assert(value@.take(a.len() as int) =~= a);
            assert(value@.skip(a.len() as int + 1) =~= b);
            assert(value@[a.len() as int] == '/');
        }
    }
}

/// A text is split around its first separator.
proof fn lemma_split(s: Seq<char>, sep: char)
    ensures
        match parse::split_at_first(s, sep) {
            Some((a, b)) => s == a + seq![sep] + b && !a.contains(sep),
            None => !s.contains(sep),
        },
    decreases s.len(),
{
    if s.len() > 0 && s[0] != sep {
        let tail = s.drop_first();
        lemma_split(tail, sep);
        assert(s =~= seq![s[0]] + tail);
        match parse::split_at_first(tail, sep) {
            Some((a, b)) => {
                assert(s =~= seq![s[0]] + a + seq![sep] + b);
                assert forall|i: int| 0 <= i < a.len() + 1 implies (seq![s[0]] + a)[i] != sep by {
                    if i > 0 {
                        assert((seq![s[0]] + a)[i] == a[i - 1]);
                        assert(a.contains(a[i - 1]));
                    }
                }
            },
            None => {
                assert forall|i: int| 0 <= i < s.len() implies s[i] != sep by {
                    if i > 0 {
                        assert(s[i] == tail[i - 1]);
                        assert(tail.contains(tail[i - 1]));
                    }
                }
            },
        }
    } else if s.len() > 0 {
        assert(s =~= Seq::empty() + seq![sep] + s.drop_first());
    }
}

/// A target that is in error says why: no slash, no network, or no prefix.
pub proof fn faulty_networks_are_reported(
    value: &str,
    r: Result<Option<RemoteMatch>, String>,
    slash: int,
)
    requires
        call_ensures(remote_match, ("cidr", value), r),
    ensures
        !value@.contains('/') ==> (r matches Err(e) && e@ == "invalid CIDR target"@),
        0 <= slash < value@.len() && value@[slash] == '/' && (forall|j: int|
            0 <= j < slash ==> #[trigger] value@[j] != '/') ==> match (
            parse::ip_of(value@.take(slash)),
            parse::u8_of(value@.skip(slash + 1)),
        ) {
            (None, _) => r matches Err(e) && e@ == "invalid CIDR network"@,
            (Some(_), None) => r matches Err(e) && e@ == "invalid CIDR prefix"@,
            (Some(network), Some(prefix)) => r == Ok::<Option<RemoteMatch>, String>(
                Some(RemoteMatch::Cidr { network, prefix }),
            ),
        },
{
    words::kinds_differ();
    lemma_split(value@, '/');
    match parse::split_at_first(value@, '/') {
        Some((a, b)) => {
            assert(value@[a.len() as int] == '/');
            assert(value@.contains('/'));
            if 0 <= slash < value@.len() && value@[slash] == '/' && (forall|j: int|
                0 <= j < slash ==> #[trigger] value@[j] != '/') {
                if slash < a.len() {
                    assert(value@[slash] == a[slash]);
                    assert(a.contains(a[slash]));
                }
                if slash > a.len() {
                    assert(value@[a.len() as int] != '/');
                }
                assert(value@.take(slash) =~= a);
                assert(value@.skip(slash + 1) =~= b);
            }
        },
        None => {
            if 0 <= slash < value@.len() && value@[slash] == '/' {
                assert(value@.contains(value@[slash]));
            }
        },
    }
}

/// The kind of a target is read without regard to case; no target limits nothing.
pub proof fn kinds_are_read_without_case(
    target: RuleTarget,
    r: Result<Option<RemoteMatch>, String>,
    kind: &str,
    value: &str,
    plain: Result<Option<RemoteMatch>, String>,
    none: Result<Option<RemoteMatch>, String>,
)
    requires
        call_ensures(remote_match_from_target, (&Some(target),), r),
        kind@ == apps::lowercase(target.kind@),
        value@ == target.value@,
        call_ensures(remote_match, (kind, value), plain),
        call_ensures(remote_match_from_target, (&None::<RuleTarget>,), none),
    ensures
        match (r, plain) {
            (Ok(a), Ok(b)) => a == b,
            (Err(a), Err(b)) => a@ == b@,
            _ => false,
        },
        none == Ok::<Option<RemoteMatch>, String>(None),
{
}

/// The application that a rule is about: its own identifier, or the one that was
/// found for its path.
pub open spec fn application(rule: RuleModel, found: Seq<u8>) -> Seq<u8> {
    if rule.app_id.len() > 0 {
        rule.app_id
    } else if rule.app_path.len() > 0 {
        found
    } else {
        Seq::empty()
    }
}

/// Whether a rule is in force at a time: it has not ended, it holds under the
/// active profile (the home profile where none is named), and it concerns
/// outbound connections.
pub open spec fn in_force(m: StateModel, rule: RuleModel, now: u64) -> bool {
    &&& rule.expires_at_ms matches Some(end) ==> now < end
    &&& rule.profile_id.len() == 0 || rule.profile_id == "global"@ || rule.profile_id == (
    if m.settings.active_profile_id.len() == 0 {
        "home"@
    } else {
        m.settings.active_profile_id
    })
    &&& rule.direction.len() == 0 || rule.direction == "outbound"@ || rule.direction == "both"@
}

/// What a decision asks of the packet filter.
pub open spec fn wants(decision: Seq<char>, action: FilterAction) -> bool {
    match action {
        FilterAction::Permit => decision == "allow"@,
        FilterAction::Block => decision == "block"@ || decision == "quarantine"@,
    }
}

/// Whether an attempt is one that a rule is about: made by its application, over
/// its protocol, to its target and port.
pub open spec fn concerns(
    rule: RuleModel,
    found: Seq<u8>,
    remote: Option<RemoteMatch>,
    flow: Flow,
) -> bool {
    &&& application(rule, found).len() > 0
    &&& flow.app_id == application(rule, found)
    &&& rule.protocol == "tcp"@ ==> flow.protocol == 6
    &&& rule.protocol == "udp"@ ==> flow.protocol == 17
    &&& filter::in_target(remote, flow.remote)
    &&& rule.target matches Some(t) ==> (t.port matches Some(p) ==> flow.remote_port == p)
}

/// The outbound layer of an attempt.
pub open spec fn outbound_layer(flow: Flow) -> Layer {
    match flow.remote {
        IpAddr::V4(_) => Layer::ConnectV4,
        IpAddr::V6(_) => Layer::ConnectV6,
    }
}

proof fn lemma_plan_has(m: StateModel, found: Seq<Seq<u8>>, now: u64, i: int, n: int)
    requires
        0 <= i < n,
        m.rules_plan(found, now, n).1 is None,
    ensures
        service::contribution(m.rules[i].1, found[i], now, m.active_profile()) is Ok,
        forall|k: int|
            0 <= k < service::contribution(
                m.rules[i].1,
                found[i],
                now,
                m.active_profile(),
            )->Ok_0.len() ==> m.rules_plan(found, now, n).0.contains(
                #[trigger] service::contribution(
                    m.rules[i].1,
                    found[i],
                    now,
                    m.active_profile(),
                )->Ok_0[k],
            ),
    decreases n,
{
    let (front, error) = m.rules_plan(found, now, n - 1);
    let all = m.rules_plan(found, now, n).0;
    let f = service::contribution(m.rules[i].1, found[i], now, m.active_profile())->Ok_0;
    if i < n - 1 {
        lemma_plan_has(m, found, now, i, n - 1);
        assert forall|k: int| 0 <= k < f.len() implies all.contains(#[trigger] f[k]) by {
            let j = choose|j: int| 0 <= j < front.len() && front[j] == f[k];
            assert(all[j] == f[k]);
        }
    } else {
        assert forall|k: int| 0 <= k < f.len() implies all.contains(#[trigger] f[k]) by {
            assert(all[front.len() + k] == f[k]);
        }
    }
}

proof fn lemma_plan_comes_from(m: StateModel, found: Seq<Seq<u8>>, now: u64, k: int, n: int) -> (i: int)
    requires
        0 <= k < m.rules_plan(found, now, n).0.len(),
    ensures
        0 <= i < n,
        service::contribution(m.rules[i].1, found[i], now, m.active_profile()) is Ok,
        service::contribution(m.rules[i].1, found[i], now, m.active_profile())->Ok_0.contains(
            m.rules_plan(found, now, n).0[k],
        ),
    decreases n,
{
    let (front, error) = m.rules_plan(found, now, n - 1);
    if k < front.len() {
        lemma_plan_comes_from(m, found, now, k, n - 1)
    } else {
        let f = service::contribution(m.rules[n - 1].1, found[n - 1], now, m.active_profile())->Ok_0;
        assert(m.rules_plan(found, now, n).0[k] == f[k - front.len()]);
        n - 1
    }
}

/// The filters of one rule, over attempts.
proof fn lemma_rule_filters(
    rule: RuleModel,
    found: Seq<u8>,
    remote: Option<RemoteMatch>,
    action: FilterAction,
    weight: u8,
    flow: Flow,
)
    requires
        service::target_remote(rule.target) == Ok::<Option<RemoteMatch>, Seq<char>>(remote),
    ensures
        service::rule_filters(rule, found, action, weight) is Ok,
        ({
            let f = service::rule_filters(rule, found, action, weight)->Ok_0;
            &&& forall|k: int|
                0 <= k < f.len() ==> {
                    let x = #[trigger] f[k];
                    &&& x.action == action && x.weight == weight
                    &&& x.layer == Layer::ConnectV4 || x.layer == Layer::ConnectV6
                    &&& filter::all_hold(x.conditions, flow) <==> concerns(
                        rule,
                        found,
                        remote,
                        flow,
                    )
                }
            &&& concerns(rule, found, remote, flow) ==> exists|k: int|
                0 <= k < f.len() && (#[trigger] f[k]).layer == outbound_layer(flow)
        }),
{
    words::protocols_differ();
    let id = rule.effective_app_id(found);
    filter::conditions_mean_the_rule(
        filter::IdentityModel::AppId(id),
        rule.protocol_scope(),
        remote,
        rule.port(),
        flow,
    );
    if concerns(rule, found, remote, flow) {
        let f = service::rule_filters(rule, found, action, weight)->Ok_0;
        if remote is None {
            assert(f[0].layer == Layer::ConnectV4 && f[1].layer == Layer::ConnectV6);
        } else {
            assert(f[0].layer == outbound_layer(flow));
        }
    }
}

/// Every rule in force is carried out: an attempt that it is about meets a filter
/// that permits it where the rule allows, and that blocks it where the rule
/// blocks or quarantines.
pub proof fn rules_in_force_are_carried_out(
    state: PersistentState,
    found: Vec<Vec<u8>>,
    now: u64,
    plan: Plan,
    i: int,
    remote: Option<RemoteMatch>,
    action: FilterAction,
    flow: Flow,
)
    requires
        found@.len() == state@.rules.len(),
        call_ensures(apply_plan, (&state, &found, now), plan),
        plan.error is None,
        0 <= i < state@.rules.len(),
        in_force(state@, state@.rules[i].1, now),
        wants(state@.rules[i].1.decision, action),
        service::target_remote(state@.rules[i].1.target) == Ok::<Option<RemoteMatch>, Seq<char>>(
            remote,
        ),
        concerns(state@.rules[i].1, found@[i]@, remote, flow),
    ensures
        exists|k: int|
            0 <= k < plan@.rules.len() && (#[trigger] plan@.rules[k]).action == action
                && plan@.rules[k].layer == outbound_layer(flow) && filter::all_hold(
                plan@.rules[k].conditions,
                flow,
            ),
{
    words::decisions_differ();
    let m = state@;
    let ids = service::bytes_list(found@);
    let rule = m.rules[i].1;
    let weight: u8 = if action == FilterAction::Permit {
        14
    } else {
        15
    };
    assert(ids[i] == found@[i]@);
    lemma_plan_has(m, ids, now, i, m.rules.len() as int);
    lemma_rule_filters(rule, found@[i]@, remote, action, weight, flow);
    let f = service::rule_filters(rule, found@[i]@, action, weight)->Ok_0;
    assert(service::contribution(rule, ids[i], now, m.active_profile())->Ok_0 == f);
    let k = choose|k: int| 0 <= k < f.len() && (#[trigger] f[k]).layer == outbound_layer(flow);
    let j = choose|j: int| 0 <= j < plan@.rules.len() && plan@.rules[j] == f[k];
    assert(plan@.rules[j].action == action);
}

/// No filter of a rule does more than a rule in force asks for: it sits at an
/// outbound layer, its action is what the rule's decision wants, and it applies
/// to nothing but attempts that the rule is about.
pub proof fn filters_do_no_more_than_rules_ask(
    state: PersistentState,
    found: Vec<Vec<u8>>,
    now: u64,
    plan: Plan,
    k: int,
    flow: Flow,
) -> (i: int)
    requires
        found@.len() == state@.rules.len(),
        call_ensures(apply_plan, (&state, &found, now), plan),
        0 <= k < plan@.rules.len(),
    ensures
        0 <= i < state@.rules.len(),
        in_force(state@, state@.rules[i].1, now),
        wants(state@.rules[i].1.decision, plan@.rules[k].action),
        plan@.rules[k].layer == Layer::ConnectV4 || plan@.rules[k].layer == Layer::ConnectV6,
        service::target_remote(state@.rules[i].1.target) is Ok,
        filter::all_hold(plan@.rules[k].conditions, flow) <==> concerns(
            state@.rules[i].1,
            found@[i]@,
            service::target_remote(state@.rules[i].1.target)->Ok_0,
            flow,
        ),
{
    words::decisions_differ();
    let m = state@;
    let ids = service::bytes_list(found@);
    let i = lemma_plan_comes_from(m, ids, now, k, m.rules.len() as int);
    let rule = m.rules[i].1;
    assert(ids[i] == found@[i]@);
    let f = service::contribution(rule, ids[i], now, m.active_profile())->Ok_0;
    let j = choose|j: int| 0 <= j < f.len() && f[j] == plan@.rules[k];
    let remote = service::target_remote(rule.target)->Ok_0;
    lemma_rule_filters(
        rule,
        found@[i]@,
        remote,
        plan@.rules[k].action,
        plan@.rules[k].weight,
        flow,
    );
    i
}

/// An outbound attempt that a blocking rule in force is about is blocked: every
/// filter that decides on it blocks, whatever other rules allow.
pub proof fn blocked_means_blocked(
    state: PersistentState,
    found: Vec<Vec<u8>>,
    now: u64,
    plan: Plan,
    i: int,
    remote: Option<RemoteMatch>,
    flow: Flow,
    k: int,
)
    requires
        found@.len() == state@.rules.len(),
        call_ensures(apply_plan, (&state, &found, now), plan),
        plan.error is None,
        0 <= i < state@.rules.len(),
        in_force(state@, state@.rules[i].1, now),
        wants(state@.rules[i].1.decision, FilterAction::Block),
        service::target_remote(state@.rules[i].1.target) == Ok::<Option<RemoteMatch>, Seq<char>>(
            remote,
        ),
        concerns(state@.rules[i].1, found@[i]@, remote, flow),
        service::decides(service::all_filters(plan@), k, outbound_layer(flow), flow),
    ensures
        service::all_filters(plan@)[k].action == FilterAction::Block,
{
    let m = state@;
    let ids = service::bytes_list(found@);
    rules_in_force_are_carried_out(
        state,
        found,
        now,
        plan,
        i,
        remote,
        FilterAction::Block,
        flow,
    );
    let j = choose|j: int|
        0 <= j < plan@.rules.len() && (#[trigger] plan@.rules[j]).action == FilterAction::Block
            && plan@.rules[j].layer == outbound_layer(flow) && filter::all_hold(
            plan@.rules[j].conditions,
            flow,
        );
    service::block_rules_win(m, ids, now, j, k, outbound_layer(flow), flow);
}

/// An outbound attempt that an allowing rule in force is about, and no blocking
/// one, is permitted, even where default-deny is on.
pub proof fn allowed_means_allowed(
    state: PersistentState,
    found: Vec<Vec<u8>>,
    now: u64,
    plan: Plan,
    i: int,
    remote: Option<RemoteMatch>,
    flow: Flow,
    k: int,
)
    requires
        found@.len() == state@.rules.len(),
        call_ensures(apply_plan, (&state, &found, now), plan),
        plan.error is None,
        0 <= i < state@.rules.len(),
        in_force(state@, state@.rules[i].1, now),
        state@.rules[i].1.decision == "allow"@,
        service::target_remote(state@.rules[i].1.target) == Ok::<Option<RemoteMatch>, Seq<char>>(
            remote,
        ),
        concerns(state@.rules[i].1, found@[i]@, remote, flow),
        forall|j: int|
            0 <= j < state@.rules.len() && in_force(state@, (#[trigger] state@.rules[j]).1, now)
                && wants(state@.rules[j].1.decision, FilterAction::Block) ==> !(
            service::target_remote(state@.rules[j].1.target) is Ok && concerns(
                state@.rules[j].1,
                found@[j]@,
                service::target_remote(state@.rules[j].1.target)->Ok_0,
                flow,
            )),
        service::decides(service::all_filters(plan@), k, outbound_layer(flow), flow),
    ensures
        service::all_filters(plan@)[k].action == FilterAction::Permit,
{
    let m = state@;
    let ids = service::bytes_list(found@);
    rules_in_force_are_carried_out(
        state,
        found,
        now,
        plan,
        i,
        remote,
        FilterAction::Permit,
        flow,
    );
    let a = choose|a: int|
        0 <= a < plan@.rules.len() && (#[trigger] plan@.rules[a]).action == FilterAction::Permit
            && plan@.rules[a].layer == outbound_layer(flow) && filter::all_hold(
            plan@.rules[a].conditions,
            flow,
        );
    assert forall|j: int|
        0 <= j < m.plan(ids, now).rules.len() && service::applies(
            #[trigger] m.plan(ids, now).rules[j],
            outbound_layer(flow),
            flow,
        ) implies m.plan(ids, now).rules[j].action == FilterAction::Permit by {
        let b = filters_do_no_more_than_rules_ask(state, found, now, plan, j, flow);
        assert(in_force(state@, state@.rules[b].1, now));
    }
    service::permitted_unless_blocked(m, ids, now, a, k, outbound_layer(flow), flow);
}

/// With default-deny on and no rule in error, an outbound attempt that no rule in
/// force allows is blocked: some filter decides on it, and every one that does
/// blocks. With default-deny off there is no filter but those of rules.
pub proof fn default_deny_denies(
    state: PersistentState,
    found: Vec<Vec<u8>>,
    now: u64,
    plan: Plan,
    on: bool,
    flow: Flow,
)
    requires
        found@.len() == state@.rules.len(),
        call_ensures(apply_plan, (&state, &found, now), plan),
        call_ensures(default_deny_enabled, (&state,), on),
        plan.error is None,
        forall|j: int|
            0 <= j < state@.rules.len() && in_force(state@, (#[trigger] state@.rules[j]).1, now)
                && (wants(state@.rules[j].1.decision, FilterAction::Permit) || wants(
                state@.rules[j].1.decision,
                FilterAction::Block,
            )) ==> !(service::target_remote(state@.rules[j].1.target) is Ok && concerns(
                state@.rules[j].1,
                found@[j]@,
                service::target_remote(state@.rules[j].1.target)->Ok_0,
                flow,
            )),
    ensures
        on ==> exists|k: int| #[trigger]
            service::decides(service::all_filters(plan@), k, outbound_layer(flow), flow),
        on ==> forall|k: int| #[trigger]
            service::decides(service::all_filters(plan@), k, outbound_layer(flow), flow)
                ==> service::all_filters(plan@)[k].action == FilterAction::Block,
        !on ==> plan@.default_deny.len() == 0,
{
    let m = state@;
    let ids = service::bytes_list(found@);
    assert forall|j: int| 0 <= j < m.plan(ids, now).rules.len() implies !service::applies(
        #[trigger] m.plan(ids, now).rules[j],
        outbound_layer(flow),
        flow,
    ) by {
        let b = filters_do_no_more_than_rules_ask(state, found, now, plan, j, flow);
        assert(in_force(state@, state@.rules[b].1, now));
    }
    if on {
        service::unknown_traffic_is_denied(m, ids, now, outbound_layer(flow), flow);
    }
}

/// The default-deny filter blocks whatever passes its layer, and yields to any
/// filter of a rule.
pub proof fn default_deny_filter_applies_to_all(layer: Layer, r: FilterSpec, flow: Flow)
    requires
        call_ensures(default_deny_filter, (layer,), r),
    ensures
        r.layer == layer,
        r.action == FilterAction::Block,
        filter::all_hold(r@.conditions, flow),
        r.conditions@.len() == 0,
        r.weight == 1,
        r.name@ == "m0untain default deny outbound"@,
{
    assert(r@.conditions.len() == r.conditions@.len());
}

/// A plan is in error exactly if some rule in force, that decides something about
/// an application that is identified, has a target that cannot be read; then
/// default-deny is not installed, and what is reported is the fault of a rule.
pub proof fn faulty_rules_are_reported(
    state: PersistentState,
    found: Vec<Vec<u8>>,
    now: u64,
    plan: Plan,
)
    requires
        found@.len() == state@.rules.len(),
        call_ensures(apply_plan, (&state, &found, now), plan),
    ensures
        plan@.error is Some <==> exists|i: int|
            0 <= i < state@.rules.len() && faulty(state@, #[trigger] state@.rules[i].1, found@[i]@, now),
        plan@.error is Some ==> plan@.default_deny.len() == 0,
        plan@.error matches Some(e) ==> exists|i: int|
            0 <= i < state@.rules.len() && faulty(state@, #[trigger] state@.rules[i].1, found@[i]@, now)
                && service::target_remote(state@.rules[i].1.target) == Err::<
                Option<RemoteMatch>,
                Seq<char>,
            >(e),
{
    let ids = service::bytes_list(found@);
    assert forall|i: int| 0 <= i < found@.len() implies #[trigger] ids[i] == found@[i]@ by {
    }
    lemma_errors(state@, ids, now, state@.rules.len() as int);
    if plan@.error is Some {
        let i = choose|i: int|
            0 <= i < state@.rules.len() && faulty(state@, #[trigger] state@.rules[i].1, ids[i], now)
                && service::target_remote(state@.rules[i].1.target) == Err::<
                Option<RemoteMatch>,
                Seq<char>,
            >(plan@.error->0);
        assert(faulty(state@, state@.rules[i].1, found@[i]@, now));
    }
    if exists|i: int|
        0 <= i < state@.rules.len() && faulty(state@, #[trigger] state@.rules[i].1, found@[i]@, now) {
        let i = choose|i: int|
            0 <= i < state@.rules.len() && faulty(
                state@,
                #[trigger] state@.rules[i].1,
                found@[i]@,
                now,
            );
        assert(ids[i] == found@[i]@);
        assert(faulty(state@, state@.rules[i].1, ids[i], now));
    }
}

/// Whether a rule in force that decides something has a target that cannot be
/// read.
pub open spec fn faulty(m: StateModel, rule: RuleModel, found: Seq<u8>, now: u64) -> bool {
    &&& in_force(m, rule, now)
    &&& wants(rule.decision, FilterAction::Permit) || wants(rule.decision, FilterAction::Block)
    &&& application(rule, found).len() > 0
    &&& service::target_remote(rule.target) is Err
}

proof fn lemma_errors(m: StateModel, found: Seq<Seq<u8>>, now: u64, n: int)
    requires
        0 <= n <= m.rules.len(),
    ensures
        m.rules_plan(found, now, n).1 is Some <==> exists|i: int|
            0 <= i < n && faulty(m, #[trigger] m.rules[i].1, found[i], now),
        m.rules_plan(found, now, n).1 matches Some(e) ==> exists|i: int|
            0 <= i < n && faulty(m, #[trigger] m.rules[i].1, found[i], now)
                && service::target_remote(m.rules[i].1.target) == Err::<
                Option<RemoteMatch>,
                Seq<char>,
            >(e),
    decreases n,
{
    words::decisions_differ();
    if n > 0 {
        lemma_errors(m, found, now, n - 1);
        let last = m.rules[n - 1].1;
        let c = service::contribution(last, found[n - 1], now, m.active_profile());
        assert(c is Err <==> faulty(m, last, found[n - 1], now));
    }
}

/// An identifier is looked up for exactly the rules that are in force, decide
/// something, and have a path but no identifier.
pub proof fn only_needed_paths_are_resolved(
    state: PersistentState,
    now: u64,
    r: Vec<Option<String>>,
    i: int,
)
    requires
        call_ensures(paths_to_resolve, (&state, now), r),
        0 <= i < state@.rules.len(),
    ensures
        ({
            let rule = state@.rules[i].1;
            let needed = in_force(state@, rule, now) && (wants(rule.decision, FilterAction::Permit)
                || wants(rule.decision, FilterAction::Block)) && rule.app_id.len() == 0
                && rule.app_path.len() > 0;
            &&& needed ==> (r@[i] matches Some(p) && p@ == rule.app_path)
            &&& !needed ==> r@[i] is None
        }),
{
    words::decisions_differ();
}

/// A rule's filter at a layer carries the rule's application, scope, target and
/// port, with the given action; there is none where the target is of the other
/// family.
pub proof fn rule_filter_means_the_rule(
    app_id: Vec<u8>,
    layer: Layer,
    rule: ProgramRule,
    remote: Option<RemoteMatch>,
    port: Option<u16>,
    action: FilterAction,
    weight: u8,
    r: Option<FilterSpec>,
    flow: Flow,
)
    requires
        call_ensures(app_filter, (&app_id, layer, &rule, remote, port, action, weight), r),
    ensures
        r matches Some(f) ==> {
            &&& f.layer == layer && f.action == action && f.weight == weight
            &&& f.name@ == "m0untain service app policy"@
            &&& filter::all_hold(f@.conditions, flow) <==> {
                &&& flow.app_id == app_id@
                &&& rule.protocol@ == "tcp"@ ==> flow.protocol == 6
                &&& rule.protocol@ == "udp"@ ==> flow.protocol == 17
                &&& filter::in_target(remote, flow.remote)
                &&& port matches Some(p) ==> flow.remote_port == p
            }
        },
        r is None ==> remote is Some && (filter::in_target(remote, flow.remote) ==> outbound_layer(
            flow,
        ) != layer),
{
    words::protocols_differ();
    filter::conditions_mean_the_rule(
        filter::IdentityModel::AppId(app_id@),
        rule@.protocol_scope(),
        remote,
        port,
        flow,
    );
}

/// The service forgets what it cleared, and keeps exactly the filters that went
/// in, in order.
pub proof fn installed_filters_are_kept_until_cleared(
    p: &mut Policy,
    q: &mut Policy,
    origin: Origin,
    status: u32,
    id: u64,
    r: Result<(), String>,
    cleared: Vec<u64>,
)
    requires
        call_ensures(Policy::added, (p, origin, status, id), r),
        call_ensures(Policy::clear, (q,), cleared),
    ensures
        r is Ok <==> status == 0,
        status == 0 ==> final(p)@ == old(p)@.push(id),
        status != 0 ==> final(p)@ == old(p)@,
        r matches Err(e) ==> e@ == (match origin {
            Origin::Rule => "FwpmFilterAdd0(service app policy) failed: "@,
            Origin::DefaultDeny => "FwpmFilterAdd0(default deny) failed: "@,
        }) + text::decimal(status as nat),
        cleared@ == old(q)@,
        final(q)@.len() == 0,
{
}

/// The loop waits while the file's time stays the same, loads it when the time
/// changes, and opens the engine first where it is not open.
pub proof fn changes_are_loaded(
    l: &mut PolicyLoop,
    modified: Option<u128>,
    engine_open: bool,
    r: LoopAction,
    fresh: PolicyLoop,
)
    requires
        call_ensures(PolicyLoop::observe, (l, modified, engine_open), r),
        call_ensures(PolicyLoop::new, (), fresh),
    ensures
        final(l)@ == modified,
        r == LoopAction::Wait <==> modified == old(l)@,
        r == LoopAction::Reload ==> engine_open,
        r == LoopAction::Reopen ==> !engine_open,
        fresh@ is None,
{
}

/// A stop and a shutdown end the service, and no other control does; a sublayer
/// is added on success alone; the status says that only the application enforces.
pub proof fn service_answers_its_manager(
    control: u32,
    stops: bool,
    status: u32,
    added: Result<(), String>,
    known: ServiceStatus,
)
    requires
        call_ensures(asks_to_stop, (control,), stops),
        call_ensures(sublayer_added, (status,), added),
        call_ensures(current_status, (), known),
    ensures
        stops <==> control == 1 || control == 5,
        added is Ok <==> status == 0,
        added matches Err(e) ==> e@ == "FwpmSubLayerAdd0 failed: "@ + text::decimal(status as nat),
        !known.installed && !known.running && known.mode == ServiceMode::AppOnly,
        known.message@
            == "Windows service is not installed yet; m0untain is enforcing app-session rules while the UI is running."@,
{
}

proof fn lemma_state_flag(args: Seq<Seq<char>>, i: int)
    requires
        0 <= i,
    ensures
        match service::state_flag(args, i) {
            Some(k) => i <= k < args.len() && args[k] == "--state"@ && forall|j: int|
                i <= j < k ==> #[trigger] args[j] != "--state"@,
            None => forall|j: int| i <= j < args.len() ==> #[trigger] args[j] != "--state"@,
        },
    decreases args.len() - i,
{
    if i < args.len() && args[i] != "--state"@ {
        lemma_state_flag(args, i + 1);
    }
}

/// The state file is named by the argument behind the first flag that asks for
/// one, after the program's own name; without such an argument there is an error.
pub proof fn state_file_follows_its_flag(args: Vec<String>, r: Result<usize, String>)
    requires
        call_ensures(state_path_argument, (&args,), r),
    ensures
        match r {
            Ok(i) => 2 <= i < args@.len() && args@[i - 1]@ == "--state"@ && forall|j: int|
                1 <= j < i - 1 ==> (#[trigger] args@[j])@ != "--state"@,
            Err(e) => e@ == "--state <path-to-state.json> is required"@ && forall|j: int|
                1 <= j < args@.len() - 1 ==> (#[trigger] args@[j])@ != "--state"@,
        },
{
    let t = service::texts(args@);
    lemma_state_flag(t, 1);
    assert forall|j: int| 0 <= j < args@.len() implies t[j] == (#[trigger] args@[j])@ by {
    }
}

} // verus!
