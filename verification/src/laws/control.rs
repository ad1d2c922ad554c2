//! Application control: what becomes of programs is what the user decided.

use vstd::prelude::*;
use vstd::string::*;

use crate::apps;
use crate::book;
use crate::laws::words;
use crate::programs;
use crate::programs::decisions::{Decision, Inspection, InspectionModel};
use crate::programs::{AppBlockModel, ProgramPrompt, Programs, ProgramsModel};
use crate::settings::RuleModel;
use crate::wfp::{AppProtocol, Firewall, RawConn, Request};

verus! {

/// The scope that a protocol text names.
pub open spec fn names_scope(protocol: Seq<char>, scope: AppProtocol) -> bool {
    match scope {
        AppProtocol::All => protocol == "all"@,
        AppProtocol::Tcp => protocol == "tcp"@,
        AppProtocol::Udp => protocol == "udp"@,
    }
}

/// A decision to quarantine asks for one block, of the application that waited,
/// in the scope that the protocol text names.
pub proof fn quarantine_asks_for_the_named_scope<F: Firewall>(
    p: &mut Programs,
    fw: &mut F,
    request_id: &str,
    decision: &str,
    protocol: &str,
    remember: bool,
    r: Result<bool, String>,
)
    requires
        call_ensures(
            Programs::decide_program::<F>,
            (p, fw, request_id, decision, protocol, remember),
            r,
        ),
        decision@ == "quarantine"@,
        protocol@ == "all"@ || protocol@ == "tcp"@ || protocol@ == "udp"@,
        book::has_key(old(p)@.pending, request_id@),
    ensures
        final(fw).asked().len() > old(fw).asked().len(),
        final(fw).asked().last() matches Request::BlockApp { app_id, protocol: scope, reply }
            && names_scope(protocol@, scope) && app_id == book::lookup(
            old(p)@.pending,
            request_id@,
        )->0.app_id && reply is Ok == r is Ok,
{
    words::protocols_differ();
    words::decisions_differ();
}

/// A decision on a request that waits is about that request, and its scope is the
/// one that the protocol text names; the request waits no longer.
pub proof fn decision_takes_the_named_scope(
    p: &mut Programs,
    request_id: &str,
    decision: &str,
    protocol: &str,
    r: Result<Decision, String>,
)
    requires
        old(p)@.wf(),
        call_ensures(Programs::begin_decision, (p, request_id, decision, protocol), r),
    ensures
        r is Ok <==> decision_word(decision@) && protocol_word(protocol@) && book::has_key(
            old(p)@.pending,
            request_id@,
        ),
        r matches Ok(d) ==> {
            &&& names_scope(protocol@, d@.scope)
            &&& d@.key == request_id@
            &&& d@.decision == decision@
            &&& d@.protocol == protocol@
            &&& book::lookup(old(p)@.pending, request_id@) == Some(d@.pending)
            &&& !book::has_key(final(p)@.pending, request_id@)
        },
        r is Err ==> final(p)@ == old(p)@,
{
    words::protocols_differ();
    words::decisions_differ();
    book::remove_then_lookup(old(p)@.pending, request_id@, request_id@);
}

/// A question to the user describes the connection that gave rise to it.
pub proof fn question_describes_the_connection(p: Programs, raw: RawConn, i: Inspection)
    requires
        call_ensures(Programs::begin_inspection, (&p, &raw), i),
    ensures
        i matches Inspection::Ask { prompt, app_id } ==> {
            &&& !raw.inbound
            &&& prompt.protocol@ == (if raw.udp {
                "udp"@
            } else {
                "tcp"@
            })
            &&& prompt.direction@ == "outbound"@
            &&& prompt.remote_ip@ == raw.remote_ip.text()
            &&& prompt.remote_port == raw.remote_port
            &&& prompt.local_port == raw.local_port
            &&& raw@.app_path == Some(prompt.app_path@)
            &&& raw@.app_id == Some(app_id@)
        },
{
}

/// Whether a text is one of the two decisions on a program.
pub open spec fn decision_word(s: Seq<char>) -> bool {
    s == "allow"@ || s == "quarantine"@
}

/// Whether a text is one of the three protocol scopes.
pub open spec fn protocol_word(s: Seq<char>) -> bool {
    s == "all"@ || s == "tcp"@ || s == "udp"@
}

/// A decision that is not one, a protocol that is none, and a request that does
/// not wait are refused, in that order; then nothing changes, and the packet
/// filter hears of nothing.
pub proof fn refused_decision_does_nothing<F: Firewall>(
    p: &mut Programs,
    fw: &mut F,
    request_id: &str,
    decision: &str,
    protocol: &str,
    remember: bool,
    r: Result<bool, String>,
)
    requires
        call_ensures(
            Programs::decide_program::<F>,
            (p, fw, request_id, decision, protocol, remember),
            r,
        ),
        !decision_word(decision@) || !protocol_word(protocol@) || !book::has_key(
            old(p)@.pending,
            request_id@,
        ),
    ensures
        final(p)@ == old(p)@,
        final(fw).asked() == old(fw).asked(),
        r matches Err(e) && e@ == (if !decision_word(decision@) {
            "decision must be allow or quarantine"@
        } else if !protocol_word(protocol@) {
            "protocol must be all, tcp or udp"@
        } else {
            "connection request is no longer pending"@
        }),
{
}

/// A decision that is carried out settles the request and no other, makes a rule
/// about the program as it waited, with the decision and the scope as given, and
/// files the rule on disk exactly if it is to be remembered and for the session
/// otherwise. A quarantined program is blocked under the handle that the packet
/// filter gave, for the session unless the decision is remembered; a program that
/// is allowed is left without a new block.
pub proof fn decision_is_carried_out<F: Firewall>(
    p: &mut Programs,
    fw: &mut F,
    request_id: &str,
    decision: &str,
    protocol: &str,
    remember: bool,
    r: Result<bool, String>,
    other: Seq<char>,
)
    requires
        old(p)@.wf(),
        call_ensures(
            Programs::decide_program::<F>,
            (p, fw, request_id, decision, protocol, remember),
            r,
        ),
        r is Ok,
        other != request_id@,
    ensures
        r == Ok::<bool, String>(remember),
        ({
            let m = old(p)@;
            let n = final(p)@;
            let id = request_id@;
            let waiting = book::lookup(m.pending, id)->0;
            let rules = if remember {
                n.saved.rules
            } else {
                n.session
            };
            &&& book::lookup(m.pending, id) is Some
            &&& book::lookup(n.pending, id) is None
            &&& book::lookup(n.pending, other) == book::lookup(m.pending, other)
            &&& n.known == m.known
            &&& n.saved.settings == m.saved.settings
            &&& n.saved.profiles == m.saved.profiles
            &&& n.saved.notifications == m.saved.notifications
            &&& !remember ==> n.saved == m.saved
            &&& book::lookup(rules, id) matches Some(rule) && {
                &&& rule.app_path == waiting.prompt.app_path
                &&& rule.app_name == waiting.prompt.app_name
                &&& rule.app_id == waiting.app_id
                &&& rule.decision == decision@
                &&& rule.protocol == protocol@
                &&& rule.direction == "outbound"@
                &&& rule.profile_id == "global"@
                &&& rule.target is None
                &&& rule.expires_at_ms is None
            }
            &&& book::lookup(n.blocks, other) == book::lookup(m.blocks, other)
            &&& decision@ == "allow"@ ==> n.blocks == m.blocks
            &&& decision@ == "quarantine"@ ==> (book::lookup(n.blocks, id) matches Some(b) && {
                &&& final(fw).asked().last() matches Request::BlockApp { reply, .. } && reply == Ok::<
                    u64,
                    Seq<char>,
                >(b.handle)
                &&& b.temporary == !remember
                &&& b.protocol == protocol@
                &&& b.app_path == waiting.prompt.app_path
                &&& b.app_name == waiting.prompt.app_name
            })
        }),
{
    words::decisions_differ();
    let m = old(p)@;
    let d = m.decision_on(request_id@, decision@, protocol@);
    let id = request_id@;
    let t = m.taken(id);
    book::remove_then_lookup(m.pending, id, other);
    book::insert_then_lookup(
        programs::purged(m.saved.rules, id, d.rule().app_id),
        id,
        d.rule(),
        id,
    );
    book::insert_then_lookup(programs::purged(m.session, id, d.rule().app_id), id, d.rule(), id);
    assert forall|h: u64| true implies ({
        let b = programs::decisions::block_entry(
            h,
            d.pending.prompt.app_path,
            d.pending.prompt.app_name,
            d.protocol,
            !remember,
        );
        let n = #[trigger] t.decided(d, remember, Some(h));
        book::lookup(n.blocks, id) == Some(b) && book::lookup(n.blocks, other) == book::lookup(
            m.blocks,
            other,
        )
    }) by {
        let b = programs::decisions::block_entry(
            h,
            d.pending.prompt.app_path,
            d.pending.prompt.app_name,
            d.protocol,
            !remember,
        );
        book::insert_then_lookup(m.blocks, id, b, other);
    }
}

/// A decision reaches the packet filter as: the temporary block of the request is
/// lifted, where there is one, and then, for a quarantine alone, one block is
/// asked for. Nothing else is asked.
pub proof fn decision_asks_in_order<F: Firewall>(
    p: &mut Programs,
    fw: &mut F,
    request_id: &str,
    decision: &str,
    protocol: &str,
    remember: bool,
    r: Result<bool, String>,
)
    requires
        call_ensures(
            Programs::decide_program::<F>,
            (p, fw, request_id, decision, protocol, remember),
            r,
        ),
        decision_word(decision@),
        protocol_word(protocol@),
        book::has_key(old(p)@.pending, request_id@),
    ensures
        ({
            let a = old(fw).asked();
            let b = final(fw).asked();
            let n = a.len() as int;
            let lifts = match book::lookup(old(p)@.pending, request_id@)->0.temporary_handle {
                Some(_) => 1int,
                None => 0,
            };
            let blocks = if decision@ == "quarantine"@ {
                1int
            } else {
                0
            };
            &&& b.len() == n + lifts + blocks
            &&& b.take(n) == a
            &&& book::lookup(old(p)@.pending, request_id@)->0.temporary_handle matches Some(h)
                ==> b[n] == (Request::Unblock { handle: h })
            &&& blocks == 1 ==> b[n + lifts] is BlockApp
            &&& r matches Err(e) ==> {
                &&& blocks == 1
                &&& b[n + lifts] matches Request::BlockApp { reply, .. } && reply == Err::<
                    u64,
                    Seq<char>,
                >(e@)
                &&& final(p)@.saved == old(p)@.saved
                &&& final(p)@.session == old(p)@.session
                &&& final(p)@.blocks == old(p)@.blocks
            }
        }),
{
    words::decisions_differ();
    let a = old(fw).asked();
    let b = final(fw).asked();
    assert(b.take(a.len() as int) =~= a);
}

/// A change of a rule asks for one block in the scope that the protocol text
/// names where it is a quarantine; the former block is lifted, and only after
/// that one was granted. What the packet filter refuses changes nothing.
pub proof fn changed_rule_is_enforced_as_named<F: Firewall>(
    p: &mut Programs,
    fw: &mut F,
    app_path: &str,
    decision: &str,
    protocol: &str,
    r: Result<(), String>,
)
    requires
        old(p)@.wf(),
        call_ensures(
            Programs::set_program_rule_decision::<F>,
            (p, fw, app_path, decision, protocol),
            r,
        ),
        decision_word(decision@),
        protocol_word(protocol@),
        old(p)@.rule_to_change(apps::key_of(app_path@)) is Some,
    ensures
        ({
            let m = old(p)@;
            let n = final(p)@;
            let (key, rule) = m.rule_to_change(apps::key_of(app_path@))->0;
            let a = old(fw).asked();
            let b = final(fw).asked();
            let former = book::lookup(m.blocks, key);
            &&& decision@ == "quarantine"@ ==> {
                &&& b.len() > a.len()
                &&& b[a.len() as int] matches Request::BlockApp { app_id, protocol: scope, reply }
                    && app_id == rule.app_id && names_scope(protocol@, scope) && match r {
                    Ok(_) => book::lookup(n.blocks, key) matches Some(x) && reply == Ok::<
                        u64,
                        Seq<char>,
                    >(x.handle) && !x.temporary && x.protocol == protocol@,
                    Err(e) => reply == Err::<u64, Seq<char>>(e@) && n == m && b.len() == a.len() + 1,
                }
                &&& r is Ok && former is Some ==> b.len() == a.len() + 2 && b.last() == (
                Request::Unblock { handle: former->0.handle })
                &&& r is Ok && former is None ==> b.len() == a.len() + 1
            }
            &&& decision@ == "allow"@ ==> {
                &&& r is Ok
                &&& book::lookup(n.blocks, key) is None
                &&& former is Some ==> b == a.push(Request::Unblock { handle: former->0.handle })
                &&& former is None ==> b == a
            }
            &&& r is Ok ==> (book::lookup(n.saved.rules, key) matches Some(x) && {
                &&& x.decision == decision@
                &&& x.protocol == protocol@
                &&& x.app_path == rule.app_path
                &&& x.app_name == rule.app_name
                &&& x.app_id == rule.app_id
                &&& x.direction == rule.direction
                &&& x.target == rule.target
                &&& x.expires_at_ms == rule.expires_at_ms
                &&& x.profile_id == rule.profile_id
            })
            &&& n.pending == m.pending
            &&& n.known == m.known
            &&& n.saved.settings == m.saved.settings
        }),
{
    words::decisions_differ();
    words::protocols_differ();
    let m = old(p)@;
    let key0 = apps::key_of(app_path@);
    let c = m.change_of(key0, decision@, protocol@);
    book::remove_then_lookup(m.blocks, c.rule_key, c.rule_key);
    book::insert_then_lookup(
        programs::purged(m.saved.rules, c.rule_key, c.changed().app_id),
        c.rule_key,
        c.changed(),
        c.rule_key,
    );
    assert forall|h: u64| true implies book::lookup(
        (#[trigger] m.changed(c, Some(h))).blocks,
        c.rule_key,
    ) == Some(
        programs::decisions::block_entry(h, c.rule.app_path, c.rule.app_name, c.protocol, false),
    ) by {
        let b = programs::decisions::block_entry(
            h,
            c.rule.app_path,
            c.rule.app_name,
            c.protocol,
            false,
        );
        book::insert_then_lookup(m.blocks, c.rule_key, b, c.rule_key);
    }
}

/// A change that is no decision, has no scope, or concerns a program that was
/// neither observed nor has a remembered rule is refused, and nothing happens.
pub proof fn refused_change_does_nothing<F: Firewall>(
    p: &mut Programs,
    fw: &mut F,
    app_path: &str,
    decision: &str,
    protocol: &str,
    r: Result<(), String>,
)
    requires
        call_ensures(
            Programs::set_program_rule_decision::<F>,
            (p, fw, app_path, decision, protocol),
            r,
        ),
    ensures
        ({
            let m = old(p)@;
            let key = apps::key_of(app_path@);
            let unknown = !book::has_key(m.known, key) && !book::has_key(m.saved.rules, key);
            &&& !decision_word(decision@) || !protocol_word(protocol@) || unknown ==> final(p)@ == m
                && final(fw).asked() == old(fw).asked() && r is Err
            &&& !decision_word(decision@) ==> r->Err_0@ == "decision must be allow or quarantine"@
            &&& decision_word(decision@) && !protocol_word(protocol@) ==> r->Err_0@
                == "protocol must be all, tcp or udp"@
            &&& decision_word(decision@) && protocol_word(protocol@) && unknown ==> r->Err_0@
                == "program was not observed in this session yet"@
        }),
{
    book::lookup_finds_what_is_there(old(p)@.known, apps::key_of(app_path@));
    book::lookup_finds_what_is_there(old(p)@.saved.rules, apps::key_of(app_path@));
}

/// The rule that a change is about: of an observed program, the one that applies
/// to it, and where none does a fresh one that allows everything outbound under
/// every profile; of any other program, the remembered one under its key.
pub proof fn changed_rule_is_the_one_that_applies(m: ProgramsModel, key: Seq<char>)
    ensures
        ({
            let c = m.rule_to_change(key);
            let known = book::lookup(m.known, key);
            &&& known is None ==> match book::lookup(m.saved.rules, key) {
                Some(rule) => c == Some((key, rule)),
                None => c is None,
            }
            &&& known matches Some(k) ==> match m.rule_for(key, k.app_id) {
                Some(e) => c == Some(e),
                None => c matches Some((under, rule)) && under == key && rule.app_path == k.app_path
                    && rule.app_name == k.app_name && rule.app_id == k.app_id && rule.decision
                    == "allow"@ && rule.protocol == "all"@ && rule.direction == "outbound"@
                    && rule.profile_id == "global"@ && rule.target is None
                    && rule.expires_at_ms is None,
            }
        }),
{
}

/// Whether a rule is about an application: under its key, or with its identifier.
pub open spec fn about(
    e: (Seq<char>, crate::settings::RuleModel),
    key: Seq<char>,
    app_id: Seq<u8>,
) -> bool {
    e.0 == key || (app_id.len() > 0 && e.1.app_id == app_id)
}

proof fn lemma_first_with_id(
    rules: Seq<(Seq<char>, crate::settings::RuleModel)>,
    app_id: Seq<u8>,
)
    ensures
        match programs::first_with_id(rules, app_id) {
            Some(e) => app_id.len() > 0 && e.1.app_id == app_id && rules.contains(e),
            None => forall|i: int|
                0 <= i < rules.len() ==> app_id.len() == 0 || (#[trigger] rules[i]).1.app_id
                    != app_id,
        },
    decreases rules.len(),
{
    if rules.len() > 0 {
        let tail = rules.drop_first();
        lemma_first_with_id(tail, app_id);
        if programs::has_id(rules[0].1.app_id, app_id) {
            assert(rules[0] == programs::first_with_id(rules, app_id)->0);
        } else {
            match programs::first_with_id(tail, app_id) {
                Some(e) => {
                    let k = choose|k: int| 0 <= k < tail.len() && tail[k] == e;
                    assert(rules[k + 1] == e);
                },
                None => {
                    assert forall|i: int| 0 <= i < rules.len() implies app_id.len() == 0 || (
                    #[trigger] rules[i]).1.app_id != app_id by {
                        if i > 0 {
                            assert(tail[i - 1] == rules[i]);
                        }
                    }
                },
            }
        }
    }
}

/// A rule that is found is in the list and is about the application; one under
/// the key is preferred; and where none is found there is none.
pub proof fn found_rule_is_about_the_application(
    rules: crate::book::Book<crate::settings::ProgramRule>,
    key: &str,
    app_id: Vec<u8>,
    r: Option<(String, crate::settings::ProgramRule)>,
)
    requires
        call_ensures(programs::find_rule_in, (&rules, key, &app_id), r),
    ensures
        match r {
            Some((k, rule)) => rules@.contains((k@, rule@)) && about((k@, rule@), key@, app_id@)
                && (k@ != key@ ==> !book::has_key(rules@, key@)),
            None => forall|i: int|
                0 <= i < rules@.len() ==> !about(#[trigger] rules@[i], key@, app_id@),
        },
{
    book::lookup_finds_what_is_there(rules@, key@);
    lemma_first_with_id(rules@, app_id@);
    if let Some(v) = book::lookup(rules@, key@) {
        let i = choose|i: int| 0 <= i < rules@.len() && #[trigger] rules@[i] == (key@, v);
        assert(rules@.contains((key@, v)));
    }
}

/// A remembered rule about an application goes before one of the session.
pub proof fn remembered_rules_go_first(
    p: Programs,
    key: &str,
    app_id: Vec<u8>,
    r: Option<(String, crate::settings::ProgramRule)>,
)
    requires
        call_ensures(Programs::find_program_rule, (&p, key, &app_id), r),
    ensures
        match r {
            Some((k, rule)) => {
                let e = (k@, rule@);
                &&& about(e, key@, app_id@)
                &&& p@.saved.rules.contains(e) || (p@.session.contains(e) && forall|i: int|
                    0 <= i < p@.saved.rules.len() ==> !about(
                        #[trigger] p@.saved.rules[i],
                        key@,
                        app_id@,
                    ))
            },
            None => (forall|i: int|
                0 <= i < p@.saved.rules.len() ==> !about(
                    #[trigger] p@.saved.rules[i],
                    key@,
                    app_id@,
                )) && (forall|i: int|
                0 <= i < p@.session.len() ==> !about(#[trigger] p@.session[i], key@, app_id@)),
        },
{
    lemma_found(p@.saved.rules, key@, app_id@);
    lemma_found(p@.session, key@, app_id@);
}

proof fn lemma_found(
    rules: Seq<(Seq<char>, crate::settings::RuleModel)>,
    key: Seq<char>,
    app_id: Seq<u8>,
)
    ensures
        match programs::found_in(rules, key, app_id) {
            Some(e) => rules.contains(e) && about(e, key, app_id),
            None => forall|i: int|
                0 <= i < rules.len() ==> !about(#[trigger] rules[i], key, app_id),
        },
{
    book::lookup_finds_what_is_there(rules, key);
    lemma_first_with_id(rules, app_id);
    if let Some(v) = book::lookup(rules, key) {
        let i = choose|i: int| 0 <= i < rules.len() && #[trigger] rules[i] == (key, v);
        assert(rules.contains((key, v)));
    }
}

/// Purging takes out exactly the rules about the application.
pub proof fn purging_takes_out_what_is_about_the_application(
    rules: Seq<(Seq<char>, crate::settings::RuleModel)>,
    key: Seq<char>,
    app_id: Seq<u8>,
    e: (Seq<char>, crate::settings::RuleModel),
)
    ensures
        programs::purged(rules, key, app_id).contains(e) <==> rules.contains(e) && !about(
            e,
            key,
            app_id,
        ),
        programs::purged(rules, key, app_id).len() <= rules.len(),
{
    let f = programs::kept(key, app_id);
    rules.lemma_filter_len(f);
    if programs::purged(rules, key, app_id).contains(e) {
        let i = choose|i: int|
            0 <= i < programs::purged(rules, key, app_id).len() && programs::purged(
                rules,
                key,
                app_id,
            )[i] == e;
        rules.lemma_filter_pred(f, i);
        rules.lemma_filter_contains_rev(f, e);
    }
    if rules.contains(e) && !about(e, key, app_id) {
        let i = choose|i: int| 0 <= i < rules.len() && rules[i] == e;
        rules.lemma_filter_contains(f, i);
    }
}

/// Where a program is in question is told by its key or its identifier.
pub proof fn asking_is_told_by_key_or_identifier(p: Programs, key: &str, app_id: Vec<u8>, r: bool)
    requires
        call_ensures(Programs::has_pending_program, (&p, key, &app_id), r),
    ensures
        r <==> exists|i: int|
            0 <= i < p@.pending.len() && ((#[trigger] p@.pending[i]).0 == key@ || (app_id@.len()
                > 0 && p@.pending[i].1.app_id == app_id@)),
{
    book::lookup_finds_what_is_there(p@.pending, key@);
    if r && !book::has_key(p@.pending, key@) {
        let i = choose|i: int|
            0 <= i < p@.pending.len() && programs::has_id(
                (#[trigger] p@.pending[i]).1.app_id,
                app_id@,
            );
        assert(p@.pending[i].1.app_id == app_id@);
    }
    if exists|i: int|
        0 <= i < p@.pending.len() && ((#[trigger] p@.pending[i]).0 == key@ || (app_id@.len() > 0
            && p@.pending[i].1.app_id == app_id@)) {
        let i = choose|i: int|
            0 <= i < p@.pending.len() && ((#[trigger] p@.pending[i]).0 == key@ || (app_id@.len()
                > 0 && p@.pending[i].1.app_id == app_id@));
        if app_id@.len() > 0 && p@.pending[i].1.app_id == app_id@ {
            assert(programs::has_id(p@.pending[i].1.app_id, app_id@));
        }
    }
}

/// A protocol text is read as the scope that it names, and any other text is
/// refused.
pub proof fn protocol_texts_name_scopes(value: &str, r: Result<AppProtocol, String>)
    requires
        call_ensures(programs::parse_protocol, (value,), r),
    ensures
        match r {
            Ok(scope) => names_scope(value@, scope),
            Err(e) => !protocol_word(value@) && e@ == "protocol must be all, tcp or udp"@,
        },
{
    words::protocols_differ();
}

/// The question raised by a connection describes that connection, and its
/// program; it is filed under the program's key.
pub proof fn prompt_describes_the_connection<F: Firewall>(
    p: &mut Programs,
    fw: &mut F,
    raw: RawConn,
    r: Option<ProgramPrompt>,
)
    requires
        old(p)@.wf(),
        call_ensures(Programs::inspect_program::<F>, (p, fw, &raw), r),
        r is Some,
    ensures
        ({
            let q = r->0@;
            &&& !raw.inbound
            &&& q.protocol == (if raw.udp {
                "udp"@
            } else {
                "tcp"@
            })
            &&& q.direction == "outbound"@
            &&& q.remote_ip == raw.remote_ip.text()
            &&& q.remote_port == raw.remote_port
            &&& q.local_port == raw.local_port
            &&& raw@.app_path == Some(q.app_path)
            &&& q.app_name == apps::name_of(q.app_path)
            &&& q.id == apps::key_of(q.app_path)
            &&& q.first_connection_may_have_passed
            &&& book::lookup(final(p)@.pending, q.id) matches Some(w) && w.prompt == q && raw@.app_id
                == Some(w.app_id) && (w.temporary_handle matches Some(h) ==> final(fw).asked().last() == (Request::BlockApp {
                app_id: w.app_id,
                protocol: AppProtocol::All,
                reply: Ok(h),
            }))
        }),
{
    let m = old(p)@;
    let i = m.inspection(raw@);
    assert forall|handle: Option<u64>| i is Ask implies book::lookup(
        (#[trigger] m.inspected(i, handle)).pending,
        i->prompt.id,
    ) == Some(
        programs::PendingModel {
            prompt: i->prompt,
            app_id: i->Ask_app_id,
            temporary_handle: handle,
        },
    ) by {
        book::insert_then_lookup(
            m.pending,
            i->prompt.id,
            programs::PendingModel {
                prompt: i->prompt,
                app_id: i->Ask_app_id,
                temporary_handle: handle,
            },
            i->prompt.id,
        );
    }
}

/// A new program is asked about exactly where the connection is outbound, the
/// program is identified, the user wants to be asked, and neither a rule, a
/// question nor a block concerns it yet.
pub proof fn new_programs_are_asked_about<F: Firewall>(
    p: &mut Programs,
    fw: &mut F,
    raw: RawConn,
    r: Option<ProgramPrompt>,
)
    requires
        call_ensures(Programs::inspect_program::<F>, (p, fw, &raw), r),
    ensures
        ({
            let m = old(p)@;
            let path = raw@.app_path->0;
            let id = raw@.app_id->0;
            let key = apps::key_of(path);
            r is Some <==> {
                &&& !raw.inbound
                &&& raw@.app_path is Some && raw@.app_id is Some
                &&& apps::trimmed(path).len() > 0 && id.len() > 0
                &&& m.saved.settings.ask_new_apps
                &&& forall|i: int|
                    0 <= i < m.saved.rules.len() ==> !about(#[trigger] m.saved.rules[i], key, id)
                &&& forall|i: int|
                    0 <= i < m.session.len() ==> !about(#[trigger] m.session[i], key, id)
                &&& forall|i: int|
                    0 <= i < m.pending.len() ==> (#[trigger] m.pending[i]).0 != key
                        && m.pending[i].1.app_id != id
                &&& forall|i: int| 0 <= i < m.blocks.len() ==> (#[trigger] m.blocks[i]).0 != key
            }
        }),
        r is Some ==> final(fw).asked().len() == old(fw).asked().len() + 1,
{
    let m = old(p)@;
    if raw@.app_path is Some && raw@.app_id is Some {
        let key = apps::key_of(raw@.app_path->0);
        let id = raw@.app_id->0;
        lemma_found(m.saved.rules, key, id);
        lemma_found(m.session, key, id);
        book::lookup_finds_what_is_there(m.pending, key);
        book::lookup_finds_what_is_there(m.blocks, key);
        if let Some(e) = programs::found_in(m.saved.rules, key, id) {
            let i = choose|i: int| 0 <= i < m.saved.rules.len() && m.saved.rules[i] == e;
            assert(about(m.saved.rules[i], key, id));
        }
        if let Some(e) = programs::found_in(m.session, key, id) {
            let i = choose|i: int| 0 <= i < m.session.len() && m.session[i] == e;
            assert(about(m.session[i], key, id));
        }
        if id.len() > 0 && !m.asking(key, id) {
            assert forall|i: int| 0 <= i < m.pending.len() implies (#[trigger] m.pending[i]).0
                != key && m.pending[i].1.app_id != id by {
                assert(!programs::has_id(m.pending[i].1.app_id, id));
            }
        }
    }
}

/// A program with a rule is blocked when it is seen exactly where the rule is to
/// quarantine and it is not blocked yet: one block is asked for, of the rule's
/// application in the rule's scope, and noted under the rule's key with the
/// handle that was given. In every other case nothing changes.
pub proof fn quarantine_rules_are_enforced_when_seen<F: Firewall>(
    p: &mut Programs,
    fw: &mut F,
    raw: RawConn,
    r: Option<ProgramPrompt>,
    key: Seq<char>,
    rule: crate::settings::RuleModel,
)
    requires
        old(p)@.wf(),
        call_ensures(Programs::inspect_program::<F>, (p, fw, &raw), r),
        raw@.app_path is Some && raw@.app_id is Some,
        old(p)@.rule_for(apps::key_of(raw@.app_path->0), raw@.app_id->0) == Some((key, rule)),
    ensures
        r is None,
        ({
            let m = old(p)@;
            let n = final(p)@;
            let a = old(fw).asked();
            let b = final(fw).asked();
            let due = !raw.inbound && apps::trimmed(raw@.app_path->0).len() > 0
                && raw@.app_id->0.len() > 0 && rule.decision == "quarantine"@ && !book::has_key(
                m.blocks,
                key,
            );
            &&& !due ==> n == m && b == a
            &&& due ==> {
                &&& b.len() == a.len() + 1
                &&& b.last() matches Request::BlockApp { app_id, protocol, reply } && app_id
                    == rule.app_id && (protocol_word(rule.protocol) ==> names_scope(
                    rule.protocol,
                    protocol,
                )) && (!protocol_word(rule.protocol) ==> protocol == AppProtocol::All) && match reply {
                    Ok(h) => book::lookup(n.blocks, key) matches Some(x) && x.handle == h
                        && !x.temporary && x.protocol == rule.protocol && x.app_path
                        == rule.app_path && x.app_name == rule.app_name,
                    Err(_) => n == m,
                }
            }
            &&& n.saved == m.saved && n.session == m.session && n.pending == m.pending && n.known
                == m.known
        }),
{
    words::protocols_differ();
    let m = old(p)@;
    let a = old(fw).asked();
    assert forall|h: u64| true implies book::lookup(
        (#[trigger] m.inspected(InspectionModel::Enforce { rule_key: key, rule }, Some(h))).blocks,
        key,
    ) == Some(
        programs::decisions::block_entry(h, rule.app_path, rule.app_name, rule.protocol, false),
    ) by {
        let b = programs::decisions::block_entry(
            h,
            rule.app_path,
            rule.app_name,
            rule.protocol,
            false,
        );
        book::insert_then_lookup(m.blocks, key, b, key);
    }
}

/// Connections that are inbound, or whose program is not identified, are no
/// matter of application control.
pub proof fn other_connections_are_no_matter<F: Firewall>(
    p: &mut Programs,
    fw: &mut F,
    raw: RawConn,
    r: Option<ProgramPrompt>,
)
    requires
        call_ensures(Programs::inspect_program::<F>, (p, fw, &raw), r),
        raw.inbound || raw.app_path is None || raw.app_id is None || raw@.app_id->0.len() == 0
            || apps::trimmed(raw@.app_path->0).len() == 0,
    ensures
        r is None,
        final(p)@ == old(p)@,
        final(fw).asked() == old(fw).asked(),
{
}

/// A program that was seen with a path and an identifier is known under its key,
/// as it was seen last, and no other becomes known or forgotten.
pub proof fn seen_programs_are_known(p: &mut Programs, raw: RawConn, other: Seq<char>)
    requires
        call_ensures(Programs::remember_known_app, (p, &raw), ()),
    ensures
        ({
            let m = old(p)@;
            let n = final(p)@;
            let path = raw@.app_path->0;
            let key = apps::key_of(path);
            let seen = raw@.app_path is Some && raw@.app_id is Some && apps::trimmed(path).len() > 0
                && raw@.app_id->0.len() > 0;
            &&& !seen ==> n == m
            &&& seen ==> (book::lookup(n.known, key) matches Some(k) && k.app_path == path
                && k.app_name == apps::name_of(path) && k.app_id == raw@.app_id->0)
            &&& !seen || other != key ==> book::lookup(n.known, other) == book::lookup(
                m.known,
                other,
            )
            &&& n.saved == m.saved && n.session == m.session && n.pending == m.pending && n.blocks
                == m.blocks
        }),
{
    let m = old(p)@;
    if raw@.app_path is Some && raw@.app_id is Some {
        let path = raw@.app_path->0;
        let app = programs::KnownModel {
            app_path: path,
            app_name: apps::name_of(path),
            app_id: raw@.app_id->0,
        };
        book::insert_then_lookup(m.known, apps::key_of(path), app, other);
    }
}

/// Removing the rule of a program takes out its remembered rule, its session rule
/// and its block, has that block lifted, and touches no other program.
pub proof fn removal_concerns_one_program<F: Firewall>(
    p: &mut Programs,
    fw: &mut F,
    app_path: &str,
    other: Seq<char>,
)
    requires
        old(p)@.wf(),
        call_ensures(Programs::remove_program_rule::<F>, (p, fw, app_path), ()),
        other != apps::key_of(app_path@),
    ensures
        ({
            let m = old(p)@;
            let n = final(p)@;
            let key = apps::key_of(app_path@);
            &&& book::lookup(n.saved.rules, key) is None
            &&& book::lookup(n.session, key) is None
            &&& book::lookup(n.blocks, key) is None
            &&& book::lookup(n.saved.rules, other) == book::lookup(m.saved.rules, other)
            &&& book::lookup(n.session, other) == book::lookup(m.session, other)
            &&& book::lookup(n.blocks, other) == book::lookup(m.blocks, other)
            &&& n.pending == m.pending && n.known == m.known
            &&& n.saved.settings == m.saved.settings && n.saved.profiles == m.saved.profiles
            &&& match book::lookup(m.blocks, key) {
                Some(b) => final(fw).asked() == old(fw).asked().push(
                    Request::Unblock { handle: b.handle },
                ),
                None => final(fw).asked() == old(fw).asked(),
            }
        }),
{
    let m = old(p)@;
    let key = apps::key_of(app_path@);
    book::remove_then_lookup(m.saved.rules, key, other);
    book::remove_then_lookup(m.session, key, other);
    book::remove_then_lookup(m.blocks, key, other);
}

/// New settings replace the old ones and nothing else.
pub proof fn settings_are_replaced(p: &mut Programs, settings: crate::settings::AppSettings)
    requires
        call_ensures(Programs::set_app_settings, (p, settings), ()),
    ensures
        final(p)@.saved.settings.launch_on_startup == settings.launch_on_startup,
        final(p)@.saved.settings.close_to_tray == settings.close_to_tray,
        final(p)@.saved.settings.ask_new_apps == settings.ask_new_apps,
        final(p)@.saved.settings.active_profile_id == settings.active_profile_id@,
        final(p)@.saved.settings.default_deny_enabled == settings.default_deny_enabled,
        final(p)@.saved.rules == old(p)@.saved.rules,
        final(p)@.saved.profiles == old(p)@.saved.profiles,
        final(p)@.session == old(p)@.session,
        final(p)@.pending == old(p)@.pending,
        final(p)@.blocks == old(p)@.blocks,
        final(p)@.known == old(p)@.known,
{
}

/// A session starts with what was kept on disk, and with nothing else.
pub proof fn session_starts_with_what_was_kept(saved: crate::settings::PersistentState, p: Programs)
    requires
        call_ensures(Programs::new, (saved,), p),
    ensures
        p@.saved == saved@,
        p@.session.len() == 0 && p@.pending.len() == 0 && p@.blocks.len() == 0 && p@.known.len()
            == 0,
{
}

proof fn lemma_restore_asked(
    m: ProgramsModel,
    asked: Seq<Request>,
    replies: Seq<Result<u64, Seq<char>>>,
    i: int,
    n: int,
)
    requires
        0 <= i < n <= m.saved.rules.len(),
        m.saved.rules[i].1.decision == "quarantine"@,
    ensures
        exists|k: int|
            asked.len() <= k < m.restore_asked(asked, replies, n).len() && (
            #[trigger] m.restore_asked(asked, replies, n)[k] matches Request::BlockApp {
                app_id,
                protocol,
                reply,
            } && app_id == m.saved.rules[i].1.app_id && (protocol_word(
                m.saved.rules[i].1.protocol,
            ) ==> names_scope(m.saved.rules[i].1.protocol, protocol)) && (!protocol_word(
                m.saved.rules[i].1.protocol,
            ) ==> protocol == AppProtocol::All) && reply == replies[i]),
        m.restore_asked(asked, replies, n).len() >= asked.len(),
    decreases n,
{
    words::protocols_differ();
    lemma_restore_grows(m, asked, replies, n - 1);
    let front = m.restore_asked(asked, replies, n - 1);
    let all = m.restore_asked(asked, replies, n);
    if i == n - 1 {
        assert(all[front.len() as int] == all.last());
    } else {
        lemma_restore_asked(m, asked, replies, i, n - 1);
        let k = choose|k: int|
            asked.len() <= k < front.len() && (#[trigger] front[k] matches Request::BlockApp {
                app_id,
                protocol,
                reply,
            } && app_id == m.saved.rules[i].1.app_id && (protocol_word(
                m.saved.rules[i].1.protocol,
            ) ==> names_scope(m.saved.rules[i].1.protocol, protocol)) && (!protocol_word(
                m.saved.rules[i].1.protocol,
            ) ==> protocol == AppProtocol::All) && reply == replies[i]);
        assert(all[k] == front[k]);
    }
}

proof fn lemma_restore_grows(
    m: ProgramsModel,
    asked: Seq<Request>,
    replies: Seq<Result<u64, Seq<char>>>,
    n: int,
)
    ensures
        m.restore_asked(asked, replies, n).len() >= asked.len(),
        (forall|i: int|
            0 <= i < n ==> (#[trigger] m.saved.rules[i]).1.decision != "quarantine"@)
            ==> m.restore_asked(asked, replies, n) == asked,
    decreases n,
{
    if n > 0 {
        lemma_restore_grows(m, asked, replies, n - 1);
        if forall|i: int| 0 <= i < n ==> (#[trigger] m.saved.rules[i]).1.decision != "quarantine"@ {
            assert(m.saved.rules[n - 1].1.decision != "quarantine"@);
        }
    }
}

/// At start every remembered quarantine rule has the packet filter asked for the
/// block of its application in its scope, and where the block was given the
/// program is noted as blocked; rules that quarantine nothing ask for nothing.
pub proof fn remembered_quarantines_are_asked_for<F: Firewall>(
    p: &mut Programs,
    fw: &mut F,
    i: int,
)
    requires
        call_ensures(Programs::restore_quarantines::<F>, (p, fw), ()),
        0 <= i < old(p)@.saved.rules.len(),
    ensures
        ({
            let m = old(p)@;
            let rule = m.saved.rules[i].1;
            let b = final(fw).asked();
            &&& rule.decision == "quarantine"@ ==> exists|k: int|
                old(fw).asked().len() <= k < b.len() && (#[trigger] b[k] matches Request::BlockApp {
                    app_id,
                    protocol,
                    reply,
                } && app_id == rule.app_id && (protocol_word(rule.protocol) ==> names_scope(
                    rule.protocol,
                    protocol,
                )) && (!protocol_word(rule.protocol) ==> protocol == AppProtocol::All) && (reply is Ok
                    ==> book::has_key(final(p)@.blocks, m.saved.rules[i].0)))
            &&& (forall|j: int|
                0 <= j < m.saved.rules.len() ==> (#[trigger] m.saved.rules[j]).1.decision
                    != "quarantine"@) ==> b == old(fw).asked()
            &&& final(p)@.saved == m.saved
        }),
{
    let m = old(p)@;
    let n = m.saved.rules.len() as int;
    let replies = choose|replies: Seq<Result<u64, Seq<char>>>|
        replies.len() == m.saved.rules.len() && final(p)@ == #[trigger] m.restored(replies, n)
            && final(fw).asked() == m.restore_asked(old(fw).asked(), replies, n);
    lemma_restore_grows(m, old(fw).asked(), replies, n);
    programs::decisions::lemma_restored_rules(m, replies, n);
    if m.saved.rules[i].1.decision == "quarantine"@ {
        lemma_restore_asked(m, old(fw).asked(), replies, i, n);
        if replies[i] is Ok {
            programs::laws::remembered_quarantines_are_restored(m, replies, i, n);
        }
        let b = final(fw).asked();
        let rule = m.saved.rules[i].1;
        let k = choose|k: int|
            old(fw).asked().len() <= k < b.len() && (#[trigger] b[k] matches Request::BlockApp {
                app_id,
                protocol,
                reply,
            } && app_id == rule.app_id && (protocol_word(rule.protocol) ==> names_scope(
                rule.protocol,
                protocol,
            )) && (!protocol_word(rule.protocol) ==> protocol == AppProtocol::All) && reply
                == replies[i]);
        assert(b[k] is BlockApp);
    }
}

proof fn lemma_restored_lookup(
    m: ProgramsModel,
    replies: Seq<Result<u64, Seq<char>>>,
    n: int,
    key: Seq<char>,
)
    requires
        m.wf(),
        0 <= n <= m.saved.rules.len(),
    ensures
        (forall|i: int|
            0 <= i < n ==> !((#[trigger] m.saved.rules[i]).0 == key && m.saved.rules[i].1.decision
                == "quarantine"@ && replies[i] is Ok)) ==> book::lookup(
            m.restored(replies, n).blocks,
            key,
        ) == book::lookup(m.blocks, key),
        forall|i: int|
            0 <= i < n && (#[trigger] m.saved.rules[i]).0 == key && m.saved.rules[i].1.decision
                == "quarantine"@ && replies[i] is Ok ==> book::lookup(
                m.restored(replies, n).blocks,
                key,
            ) == Some(
                AppBlockModel {
                    handle: replies[i]->Ok_0,
                    app_path: m.saved.rules[i].1.app_path,
                    app_name: m.saved.rules[i].1.app_name,
                    protocol: m.saved.rules[i].1.protocol,
                    temporary: false,
                },
            ),
    decreases n,
{
    if n > 0 {
        lemma_restored_lookup(m, replies, n - 1, key);
        let p = m.restored(replies, n - 1);
        programs::decisions::lemma_restored_rules(m, replies, n - 1);
        let (last, rule) = m.saved.rules[n - 1];
        if rule.decision == "quarantine"@ && replies[n - 1] is Ok {
            book::insert_then_lookup(
                p.blocks,
                last,
                m.restored_block(n - 1, replies[n - 1]->Ok_0),
                key,
            );
        }
        assert forall|i: int| 0 <= i < n - 1 implies (#[trigger] m.saved.rules[i]).0 != last by {
            assert(m.saved.rules[n - 1].0 == last);
        }
    }
}

spec fn quarantine_count(rules: Seq<(Seq<char>, RuleModel)>) -> nat {
    rules.filter(|e: (Seq<char>, RuleModel)| e.1.decision == "quarantine"@).len()
}

proof fn lemma_restore_count(
    m: ProgramsModel,
    asked: Seq<Request>,
    replies: Seq<Result<u64, Seq<char>>>,
    n: int,
)
    requires
        0 <= n <= m.saved.rules.len(),
    ensures
        m.restore_asked(asked, replies, n).len() == asked.len() + quarantine_count(
            m.saved.rules.take(n),
        ),
        m.restore_asked(asked, replies, n).take(asked.len() as int) == asked,
    decreases n,
{
    reveal(Seq::filter);
    if n > 0 {
        lemma_restore_count(m, asked, replies, n - 1);
        let front = m.restore_asked(asked, replies, n - 1);
        let all = m.restore_asked(asked, replies, n);
        assert(m.saved.rules.take(n).drop_last() =~= m.saved.rules.take(n - 1));
        assert(all.take(asked.len() as int) =~= front.take(asked.len() as int));
    } else {
        assert(asked.take(asked.len() as int) =~= asked);
    }
}

/// What the packet filter agreed to at start is noted, with the program of the
/// rule, its scope, and as a block that outlasts the session; all other blocks
/// stay as they are. One block is asked for per remembered quarantine.
pub proof fn remembered_quarantines_are_noted<F: Firewall>(
    p: &mut Programs,
    fw: &mut F,
    key: Seq<char>,
)
    requires
        old(p)@.wf(),
        call_ensures(Programs::restore_quarantines::<F>, (p, fw), ()),
    ensures
        final(p)@.saved == old(p)@.saved,
        final(p)@.session == old(p)@.session,
        final(p)@.pending == old(p)@.pending,
        final(p)@.known == old(p)@.known,
        final(fw).asked().len() == old(fw).asked().len() + old(p)@.saved.rules.filter(
            |e: (Seq<char>, RuleModel)| e.1.decision == "quarantine"@,
        ).len(),
        final(fw).asked().take(old(fw).asked().len() as int) == old(fw).asked(),
        book::lookup(final(p)@.blocks, key) == book::lookup(old(p)@.blocks, key) || exists|
            i: int,
        |
            0 <= i < old(p)@.saved.rules.len() && (#[trigger] old(p)@.saved.rules[i]).0 == key && {
                let rule = old(p)@.saved.rules[i].1;
                &&& rule.decision == "quarantine"@
                &&& book::lookup(final(p)@.blocks, key) matches Some(b) && b.app_path
                    == rule.app_path && b.app_name == rule.app_name && b.protocol == rule.protocol
                    && !b.temporary && exists|k: int|
                    old(fw).asked().len() <= k < final(fw).asked().len() && (
                    #[trigger] final(fw).asked()[k] matches Request::BlockApp { app_id, reply, .. }
                        && app_id == rule.app_id && reply == Ok::<u64, Seq<char>>(b.handle))
            },
{
    let m = old(p)@;
    let n = m.saved.rules.len() as int;
    let replies = choose|replies: Seq<Result<u64, Seq<char>>>|
        replies.len() == m.saved.rules.len() && final(p)@ == #[trigger] m.restored(replies, n)
            && final(fw).asked() == m.restore_asked(old(fw).asked(), replies, n);
    programs::decisions::lemma_restored_rules(m, replies, n);
    lemma_restore_count(m, old(fw).asked(), replies, n);
    assert(m.saved.rules.take(n) =~= m.saved.rules);
    lemma_restored_lookup(m, replies, n, key);
    if exists|i: int|
        0 <= i < n && (#[trigger] m.saved.rules[i]).0 == key && m.saved.rules[i].1.decision
            == "quarantine"@ && replies[i] is Ok {
        let i = choose|i: int|
            0 <= i < n && (#[trigger] m.saved.rules[i]).0 == key && m.saved.rules[i].1.decision
                == "quarantine"@ && replies[i] is Ok;
        lemma_restore_asked(m, old(fw).asked(), replies, i, n);
    }
}

} // verus!
