//! What application control promises.

use vstd::prelude::*;

use crate::apps;
use crate::book;
use crate::programs;
use crate::programs::decisions;
use crate::programs::decisions::{ChangeModel, DecisionModel, InspectionModel};
use crate::programs::ProgramsModel;
use crate::settings::RuleModel;
use crate::wfp::RawModel;

verus! {

/// Leaving entries out keeps keys distinct.
pub proof fn lemma_filter_distinct<T>(
    s: Seq<(Seq<char>, T)>,
    pred: spec_fn((Seq<char>, T)) -> bool,
)
    requires
        book::distinct(s),
    ensures
        book::distinct(s.filter(pred)),
        forall|i: int|
            0 <= i < s.filter(pred).len() ==> exists|j: int|
                0 <= j < s.len() && s[j] == #[trigger] s.filter(pred)[i],
    decreases s.len(),
{
    reveal(Seq::filter);
    if s.len() > 0 {
        let front = s.drop_last();
        lemma_filter_distinct(front, pred);
        let f = front.filter(pred);
        let g = s.filter(pred);
        assert forall|i: int| 0 <= i < g.len() implies exists|j: int|
            0 <= j < s.len() && s[j] == #[trigger] g[i] by {
            if i < f.len() {
                assert(g[i] == f[i]);
                let j = choose|j: int| 0 <= j < front.len() && front[j] == f[i];
                assert(s[j] == g[i]);
            } else {
                assert(s[s.len() - 1] == g[i]);
            }
        }
        assert forall|i: int, j: int| 0 <= i < j < g.len() implies (#[trigger] g[i]).0 != (
        #[trigger] g[j]).0 by {
            if j < f.len() {
                assert(g[i] == f[i] && g[j] == f[j]);
            } else {
                assert(g[i] == f[i]);
                let k = choose|k: int| 0 <= k < front.len() && front[k] == f[i];
                assert(s[k].0 != s[s.len() - 1].0);
            }
        }
    }
}

pub proof fn lemma_purged_distinct(
    rules: Seq<(Seq<char>, RuleModel)>,
    key: Seq<char>,
    app_id: Seq<u8>,
)
    requires
        book::distinct(rules),
    ensures
        book::distinct(programs::purged(rules, key, app_id)),
{
    lemma_filter_distinct(rules, programs::kept(key, app_id));
}

proof fn lemma_purged_entry(
    rules: Seq<(Seq<char>, RuleModel)>,
    key: Seq<char>,
    app_id: Seq<u8>,
    i: int,
)
    requires
        0 <= i < programs::purged(rules, key, app_id).len(),
    ensures
        programs::purged(rules, key, app_id)[i].0 != key,
        !programs::has_id(programs::purged(rules, key, app_id)[i].1.app_id, app_id),
{
    rules.lemma_filter_pred(programs::kept(key, app_id), i);
}

proof fn lemma_none_with_id(rules: Seq<(Seq<char>, RuleModel)>, app_id: Seq<u8>)
    requires
        forall|i: int|
            0 <= i < rules.len() ==> !programs::has_id((#[trigger] rules[i]).1.app_id, app_id),
    ensures
        programs::first_with_id(rules, app_id) is None,
    decreases rules.len(),
{
    if rules.len() > 0 {
        let tail = rules.drop_first();
        assert forall|i: int| 0 <= i < tail.len() implies !programs::has_id(
            (#[trigger] tail[i]).1.app_id,
            app_id,
        ) by {
            assert(tail[i] == rules[i + 1]);
        }
        lemma_none_with_id(tail, app_id);
    }
}

/// A remembered decision applies from then on, whatever identifier the program
/// shows.
pub proof fn remembered_decision_applies(
    m: ProgramsModel,
    key: Seq<char>,
    rule: RuleModel,
    app_id: Seq<u8>,
)
    ensures
        m.remembering(key, rule).rule_for(key, app_id) == Some((key, rule)),
{
    let rest = programs::purged(m.saved.rules, key, rule.app_id);
    book::insert_then_lookup(rest, key, rule, key);
}

/// A decision for this session applies where no remembered rule does, and
/// changes nothing of what is kept on disk.
pub proof fn session_decision_applies(
    m: ProgramsModel,
    key: Seq<char>,
    rule: RuleModel,
    app_id: Seq<u8>,
)
    ensures
        m.for_session(key, rule).saved == m.saved,
        programs::found_in(m.saved.rules, key, app_id) is None ==> m.for_session(
            key,
            rule,
        ).rule_for(key, app_id) == Some((key, rule)),
{
    let rest = programs::purged(m.session, key, rule.app_id);
    book::insert_then_lookup(rest, key, rule, key);
}

/// A remembered decision is the only rule about its program: no other remembered
/// rule has its identifier, and no session rule is left under its key or with
/// its identifier.
pub proof fn remembered_decision_is_the_only_one(m: ProgramsModel, key: Seq<char>, rule: RuleModel)
    ensures
        ({
            let n = m.remembering(key, rule);
            &&& forall|i: int|
                0 <= i < n.saved.rules.len() && (#[trigger] n.saved.rules[i]).0 != key
                    ==> !programs::has_id(n.saved.rules[i].1.app_id, rule.app_id)
            &&& programs::found_in(n.session, key, rule.app_id) is None
        }),
{
    let n = m.remembering(key, rule);
    let rest = programs::purged(m.saved.rules, key, rule.app_id);
    book::lemma_position_means(rest, key);
    assert forall|i: int|
        0 <= i < n.saved.rules.len() && (#[trigger] n.saved.rules[i]).0
            != key implies !programs::has_id(n.saved.rules[i].1.app_id, rule.app_id) by {
        if i < rest.len() {
            lemma_purged_entry(m.saved.rules, key, rule.app_id, i);
        }
    }
    let session = n.session;
    assert forall|i: int| 0 <= i < session.len() implies !programs::has_id(
        (#[trigger] session[i]).1.app_id,
        rule.app_id,
    ) && session[i].0 != key by {
        lemma_purged_entry(m.session, key, rule.app_id, i);
    }
    lemma_none_with_id(session, rule.app_id);
    book::lemma_position(session, key, session.len() as int);
}

/// A decision is kept on disk exactly if it is to be remembered; otherwise what
/// is on disk stays as it was. Either way the request is settled.
pub proof fn only_remembered_decisions_persist(
    m: ProgramsModel,
    d: DecisionModel,
    handle: Option<u64>,
)
    ensures
        m.decided(d, false, handle).saved == m.saved,
        book::lookup(m.decided(d, true, handle).saved.rules, d.key) == Some(d.rule()),
        book::lookup(m.decided(d, false, handle).session, d.key) == Some(d.rule()),
{
    book::insert_then_lookup(
        programs::purged(m.saved.rules, d.key, d.pending.app_id),
        d.key,
        d.rule(),
        d.key,
    );
    book::insert_then_lookup(
        programs::purged(m.session, d.key, d.pending.app_id),
        d.key,
        d.rule(),
        d.key,
    );
}

/// A program that was put in quarantine is blocked, for the session only unless
/// the decision is remembered.
pub proof fn quarantined_program_is_blocked(
    m: ProgramsModel,
    d: DecisionModel,
    remember: bool,
    handle: u64,
)
    ensures
        ({
            let b = book::lookup(m.decided(d, remember, Some(handle)).blocks, d.key);
            b is Some && b->0.handle == handle && b->0.temporary == !remember && b->0.protocol
                == d.protocol
        }),
{
    let block = decisions::block_entry(
        handle,
        d.pending.prompt.app_path,
        d.pending.prompt.app_name,
        d.protocol,
        !remember,
    );
    book::insert_then_lookup(m.blocks, d.key, block, d.key);
}

/// A settled request is no longer pending.
pub proof fn settled_request_is_gone(m: ProgramsModel, request_id: Seq<char>)
    requires
        m.wf(),
    ensures
        !book::has_key(m.taken(request_id).pending, request_id),
{
    book::remove_then_lookup(m.pending, request_id, request_id);
}

/// A program with a rule is never asked about.
pub proof fn ruled_program_is_not_asked_about(m: ProgramsModel, raw: RawModel)
    requires
        programs::identified(raw) matches Some((path, id)) && m.rule_for(
            apps::key_of(path),
            id,
        ) is Some,
    ensures
        !(m.inspection(raw) is Ask),
{
}

/// A new program that makes an outbound connection is asked about, where the
/// user wants to be asked: after the inspection, whatever the packet filter
/// replied, a question about it is pending.
pub proof fn new_program_is_asked_about(m: ProgramsModel, raw: RawModel, handle: Option<u64>)
    requires
        !raw.inbound,
        m.saved.settings.ask_new_apps,
        programs::identified(raw) matches Some((path, id)) && m.rule_for(
            apps::key_of(path),
            id,
        ) is None && !book::has_key(m.blocks, apps::key_of(path)),
    ensures
        ({
            let (path, id) = programs::identified(raw)->0;
            m.inspected(m.inspection(raw), handle).asking(apps::key_of(path), id)
        }),
{
    let (path, id) = programs::identified(raw)->0;
    let key = apps::key_of(path);
    if !m.asking(key, id) {
        let p = decisions::prompt_for(raw, path);
        let entry = programs::PendingModel { prompt: p, app_id: id, temporary_handle: handle };
        book::insert_then_lookup(m.pending, key, entry, key);
    }
}

/// A program is asked about once: while a question about it is pending, its
/// further connections raise none.
pub proof fn program_is_asked_about_once(m: ProgramsModel, raw: RawModel)
    requires
        programs::identified(raw) matches Some((path, id)) && m.asking(apps::key_of(path), id),
    ensures
        !(m.inspection(raw) is Ask),
{
}

/// Inbound connections and those of unidentified programs change nothing.
pub proof fn unidentified_programs_are_left_alone(
    m: ProgramsModel,
    raw: RawModel,
    handle: Option<u64>,
)
    requires
        raw.inbound || programs::identified(raw) is None,
    ensures
        m.inspected(m.inspection(raw), handle) == m,
{
}

/// A program under a quarantine rule is blocked when it is seen, where the
/// packet filter does it, and its rule stays as it is.
pub proof fn quarantine_rule_is_enforced(m: ProgramsModel, raw: RawModel, handle: u64)
    requires
        !raw.inbound,
        programs::identified(raw) matches Some((path, id)) && (m.rule_for(
            apps::key_of(path),
            id,
        ) matches Some((_, rule)) && rule.decision == "quarantine"@),
    ensures
        ({
            let (path, id) = programs::identified(raw)->0;
            let (rule_key, _) = m.rule_for(apps::key_of(path), id)->0;
            let n = m.inspected(m.inspection(raw), Some(handle));
            book::has_key(n.blocks, rule_key) && n.saved == m.saved && n.session == m.session
        }),
{
    let (path, id) = programs::identified(raw)->0;
    let (rule_key, rule) = m.rule_for(apps::key_of(path), id)->0;
    if !book::has_key(m.blocks, rule_key) {
        let block = decisions::block_entry(
            handle,
            rule.app_path,
            rule.app_name,
            rule.protocol,
            false,
        );
        book::insert_then_lookup(m.blocks, rule_key, block, rule_key);
    }
}

/// A program whose rule was taken out has no rule and no block under its key;
/// the rules of others are untouched.
pub proof fn removed_rule_is_gone(m: ProgramsModel, key: Seq<char>, other: Seq<char>)
    requires
        m.wf(),
    ensures
        ({
            let n = m.without_rule(key);
            &&& book::lookup(n.saved.rules, key) is None
            &&& book::lookup(n.session, key) is None
            &&& !book::has_key(n.blocks, key)
            &&& other != key ==> book::lookup(n.saved.rules, other) == book::lookup(
                m.saved.rules,
                other,
            )
            &&& other != key ==> book::lookup(n.blocks, other) == book::lookup(m.blocks, other)
        }),
{
    book::remove_then_lookup(m.saved.rules, key, other);
    book::remove_then_lookup(m.session, key, other);
    book::remove_then_lookup(m.blocks, key, other);
}

/// A program that is allowed by a change of its rule is not blocked any more,
/// and one that is quarantined is; the changed rule is the one that applies.
pub proof fn changed_rule_is_carried_out(m: ProgramsModel, c: ChangeModel, handle: u64)
    requires
        m.wf(),
    ensures
        !book::has_key(m.changed(c, None).blocks, c.rule_key),
        book::lookup(m.changed(c, Some(handle)).blocks, c.rule_key) matches Some(b) && b.handle
            == handle && !b.temporary,
        book::lookup(m.changed(c, None).saved.rules, c.rule_key) == Some(c.changed()),
        book::lookup(m.changed(c, Some(handle)).saved.rules, c.rule_key) == Some(c.changed()),
{
    book::remove_then_lookup(m.blocks, c.rule_key, c.rule_key);
    let block = decisions::block_entry(
        handle,
        c.rule.app_path,
        c.rule.app_name,
        c.protocol,
        false,
    );
    book::insert_then_lookup(m.blocks, c.rule_key, block, c.rule_key);
    book::insert_then_lookup(
        programs::purged(m.saved.rules, c.rule_key, c.rule.app_id),
        c.rule_key,
        c.changed(),
        c.rule_key,
    );
}

/// After a restart every program under a remembered quarantine rule is blocked
/// again, as far as the packet filter did it.
pub proof fn remembered_quarantines_are_restored(
    m: ProgramsModel,
    replies: Seq<Result<u64, Seq<char>>>,
    i: int,
    n: int,
)
    requires
        0 <= i < n <= m.saved.rules.len(),
        replies[i] is Ok,
        m.saved.rules[i].1.decision == "quarantine"@,
    ensures
        book::has_key(m.restored(replies, n).blocks, m.saved.rules[i].0),
    decreases n,
{
    let key = m.saved.rules[i].0;
    let last = m.saved.rules[n - 1].0;
    let p = m.restored(replies, n - 1);
    if i < n - 1 {
        remembered_quarantines_are_restored(m, replies, i, n - 1);
    }
    if let Ok(h) = replies[n - 1] {
        book::insert_then_lookup(p.blocks, last, m.restored_block(n - 1, h), key);
    }
}

/// A program that was seen with a path and an identifier can be decided on.
pub proof fn observed_program_can_be_decided_on(m: ProgramsModel, raw: RawModel)
    requires
        programs::identified(raw) is Some,
    ensures
        ({
            let (path, _) = programs::identified(raw)->0;
            m.acquainted(raw).rule_to_change(apps::key_of(path)) is Some
        }),
{
    let (path, id) = programs::identified(raw)->0;
    let app = programs::KnownModel { app_path: path, app_name: apps::name_of(path), app_id: id };
    book::insert_then_lookup(m.known, apps::key_of(path), app, apps::key_of(path));
}

} // verus!
