//! What a decision leaves alone: rules, questions and blocks of other programs.

use vstd::prelude::*;
use vstd::string::*;

use crate::apps;
use crate::book;
use crate::laws::control::{about, purging_takes_out_what_is_about_the_application};
use crate::laws::words;
use crate::programs;
use crate::programs::decisions::{ruled, InspectionModel};
use crate::programs::{
    remove_rules_with_app_id, PendingModel, ProgramPrompt, Programs,
};
use crate::settings::{ProgramRule, RuleModel};
use crate::wfp::{AppProtocol, Firewall, RawConn, Request};

verus! {

proof fn lemma_ruled(
    rules: Seq<(Seq<char>, RuleModel)>,
    key: Seq<char>,
    rule: RuleModel,
    e: (Seq<char>, RuleModel),
)
    ensures
        ruled(rules, key, rule).contains(e) <==> (rules.contains(e) && !about(e, key, rule.app_id))
            || e == (key, rule),
{
    let q = programs::purged(rules, key, rule.app_id);
    book::lookup_finds_what_is_there(q, key);
    if book::has_key(q, key) {
        let i = choose|i: int| 0 <= i < q.len() && (#[trigger] q[i]).0 == key;
        assert(q.contains(q[i]));
        purging_takes_out_what_is_about_the_application(rules, key, rule.app_id, q[i]);
    }
    purging_takes_out_what_is_about_the_application(rules, key, rule.app_id, e);
    let all = q.push((key, rule));
    assert(ruled(rules, key, rule) == all);
    if q.contains(e) {
        let i = choose|i: int| 0 <= i < q.len() && q[i] == e;
        assert(all[i] == e);
    }
    assert(all[q.len() as int] == (key, rule));
}

/// The rule that a decision on a program makes.
pub open spec fn rule_of_decision(
    waiting: PendingModel,
    decision: Seq<char>,
    protocol: Seq<char>,
) -> RuleModel {
    RuleModel {
        app_path: waiting.prompt.app_path,
        app_name: waiting.prompt.app_name,
        app_id: waiting.app_id,
        app_package_sid: Seq::empty(),
        decision,
        protocol,
        direction: "outbound"@,
        target: None,
        expires_at_ms: None,
        profile_id: "global"@,
        created_at_ms: 0,
        updated_at_ms: 0,
    }
}

/// The rule of a decision replaces every rule about the program that it stands
/// beside: a remembered one those on disk and those of the session, one for the
/// session those of the session. No rule about another program is touched.
pub proof fn decision_replaces_rules_about_the_program<F: Firewall>(
    p: &mut Programs,
    fw: &mut F,
    request_id: &str,
    decision: &str,
    protocol: &str,
    remember: bool,
    r: Result<bool, String>,
    e: (Seq<char>, RuleModel),
)
    requires
        call_ensures(
            Programs::decide_program::<F>,
            (p, fw, request_id, decision, protocol, remember),
            r,
        ),
        r is Ok,
    ensures
        ({
            let m = old(p)@;
            let n = final(p)@;
            let id = request_id@;
            let waiting = book::lookup(m.pending, id)->0;
            let made = (id, rule_of_decision(waiting, decision@, protocol@));
            &&& remember ==> {
                &&& n.saved.rules.contains(e) <==> (m.saved.rules.contains(e) && !about(
                    e,
                    id,
                    waiting.app_id,
                )) || e == made
                &&& n.session.contains(e) <==> m.session.contains(e) && !about(
                    e,
                    id,
                    waiting.app_id,
                )
            }
            &&& !remember ==> {
                &&& n.saved == m.saved
                &&& n.session.contains(e) <==> (m.session.contains(e) && !about(
                    e,
                    id,
                    waiting.app_id,
                )) || e == made
            }
        }),
{
    words::decisions_differ();
    let m = old(p)@;
    let d = m.decision_on(request_id@, decision@, protocol@);
    assert(d.rule() =~= rule_of_decision(
        book::lookup(m.pending, request_id@)->0,
        decision@,
        protocol@,
    ));
    lemma_ruled(m.saved.rules, request_id@, d.rule(), e);
    lemma_ruled(m.session, request_id@, d.rule(), e);
    purging_takes_out_what_is_about_the_application(m.session, request_id@, d.rule().app_id, e);
}

/// A changed rule replaces every rule about the program, on disk and of the
/// session, and differs from the former rule in its decision and scope alone.
/// Rules and blocks of other programs are not touched, nor is anything else.
pub proof fn change_replaces_rules_about_the_program<F: Firewall>(
    p: &mut Programs,
    fw: &mut F,
    app_path: &str,
    decision: &str,
    protocol: &str,
    r: Result<(), String>,
    e: (Seq<char>, RuleModel),
    other: Seq<char>,
)
    requires
        old(p)@.wf(),
        call_ensures(
            Programs::set_program_rule_decision::<F>,
            (p, fw, app_path, decision, protocol),
            r,
        ),
        r is Ok,
    ensures
        ({
            let m = old(p)@;
            let n = final(p)@;
            let (key, rule) = m.rule_to_change(apps::key_of(app_path@))->0;
            let made = (key, RuleModel { decision: decision@, protocol: protocol@, ..rule });
            &&& n.saved.rules.contains(e) <==> (m.saved.rules.contains(e) && !about(
                e,
                key,
                rule.app_id,
            )) || e == made
            &&& n.session.contains(e) <==> m.session.contains(e) && !about(e, key, rule.app_id)
            &&& other != key ==> book::lookup(n.blocks, other) == book::lookup(m.blocks, other)
            &&& decision@ == "quarantine"@ ==> (book::lookup(n.blocks, key) matches Some(b)
                && b.app_path == rule.app_path && b.app_name == rule.app_name)
            &&& n.pending == m.pending
            &&& n.known == m.known
            &&& n.saved.settings == m.saved.settings
            &&& n.saved.profiles == m.saved.profiles
            &&& n.saved.notifications == m.saved.notifications
            &&& n.saved.schema_version == m.saved.schema_version
        }),
{
    words::decisions_differ();
    let m = old(p)@;
    let c = m.change_of(apps::key_of(app_path@), decision@, protocol@);
    lemma_ruled(m.saved.rules, c.rule_key, c.changed(), e);
    purging_takes_out_what_is_about_the_application(m.session, c.rule_key, c.rule.app_id, e);
    book::remove_then_lookup(m.blocks, c.rule_key, other);
    assert forall|h: u64| true implies book::lookup(
        (#[trigger] m.changed(c, Some(h))).blocks,
        c.rule_key,
    ) == Some(
        programs::decisions::block_entry(h, c.rule.app_path, c.rule.app_name, c.protocol, false),
    ) && (other != c.rule_key ==> book::lookup(m.changed(c, Some(h)).blocks, other)
        == book::lookup(m.blocks, other)) by {
        let b = programs::decisions::block_entry(
            h,
            c.rule.app_path,
            c.rule.app_name,
            c.protocol,
            false,
        );
        book::insert_then_lookup(m.blocks, c.rule_key, b, other);
    }
}

/// While the user is asked, the program is blocked as far as the packet filter
/// does it: one block of the application over all protocols is asked for, and its
/// handle is kept with the question exactly if it was given. Nothing else changes.
pub proof fn program_in_question_is_blocked_meanwhile<F: Firewall>(
    p: &mut Programs,
    fw: &mut F,
    raw: RawConn,
    r: Option<ProgramPrompt>,
    other: Seq<char>,
)
    requires
        call_ensures(Programs::inspect_program::<F>, (p, fw, &raw), r),
        r is Some,
    ensures
        ({
            let m = old(p)@;
            let n = final(p)@;
            let key = r->0.id@;
            &&& final(fw).asked().drop_last() == old(fw).asked()
            &&& final(fw).asked().last() matches Request::BlockApp { app_id, protocol, reply }
                && raw@.app_id == Some(app_id) && protocol == AppProtocol::All && (book::lookup(
                n.pending,
                key,
            ) matches Some(w) && w.prompt == r->0@ && w.app_id == app_id && w.temporary_handle
                == match reply {
                Ok(h) => Some(h),
                Err(_) => None,
            })
            &&& other != key ==> book::lookup(n.pending, other) == book::lookup(m.pending, other)
            &&& n.saved == m.saved
            &&& n.session == m.session
            &&& n.blocks == m.blocks
            &&& n.known == m.known
        }),
{
    let m = old(p)@;
    let i = m.inspection(raw@);
    let asked = old(fw).asked();
    assert forall|x: Request| #[trigger] asked.push(x).drop_last() == asked by {
        assert(asked.push(x).drop_last() =~= asked);
    }
    assert forall|handle: Option<u64>| i is Ask implies book::lookup(
        (#[trigger] m.inspected(i, handle)).pending,
        i->prompt.id,
    ) == Some(
        PendingModel { prompt: i->prompt, app_id: i->app_id, temporary_handle: handle },
    ) && (other != i->prompt.id ==> book::lookup(m.inspected(i, handle).pending, other)
        == book::lookup(m.pending, other)) by {
        book::insert_then_lookup(
            m.pending,
            i->prompt.id,
            PendingModel { prompt: i->prompt, app_id: i->app_id, temporary_handle: handle },
            other,
        );
    }
}

/// Enforcing a rule that is seen blocks no other program and lifts no other block.
pub proof fn enforcement_concerns_one_program<F: Firewall>(
    p: &mut Programs,
    fw: &mut F,
    raw: RawConn,
    r: Option<ProgramPrompt>,
    key: Seq<char>,
    rule: RuleModel,
    other: Seq<char>,
)
    requires
        call_ensures(Programs::inspect_program::<F>, (p, fw, &raw), r),
        raw@.app_path is Some && raw@.app_id is Some,
        old(p)@.rule_for(apps::key_of(raw@.app_path->0), raw@.app_id->0) == Some((key, rule)),
        other != key,
    ensures
        book::lookup(final(p)@.blocks, other) == book::lookup(old(p)@.blocks, other),
{
    let m = old(p)@;
    assert forall|h: u64| true implies book::lookup(
        (#[trigger] m.inspected(InspectionModel::Enforce { rule_key: key, rule }, Some(h))).blocks,
        other,
    ) == book::lookup(m.blocks, other) by {
        let b = programs::decisions::block_entry(
            h,
            rule.app_path,
            rule.app_name,
            rule.protocol,
            false,
        );
        book::insert_then_lookup(m.blocks, key, b, other);
    }
}

/// Taking out the rules about an application takes out those, and no others.
pub proof fn rules_about_the_application_go(
    rules: &mut crate::book::Book<ProgramRule>,
    key: &str,
    app_id: Vec<u8>,
    e: (Seq<char>, RuleModel),
)
    requires
        call_ensures(remove_rules_with_app_id, (rules, key, &app_id), ()),
    ensures
        final(rules)@.contains(e) <==> old(rules)@.contains(e) && !about(e, key@, app_id@),
{
    purging_takes_out_what_is_about_the_application(old(rules)@, key@, app_id@, e);
}

} // verus!
