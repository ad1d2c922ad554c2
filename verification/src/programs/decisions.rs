//! Decisions on programs. Each one that needs the packet filter is made in two
//! steps: the first decides what to ask of it, the second settles the state with
//! its reply. A third function does both against a [`Firewall`].

use vstd::prelude::*;
use vstd::string::*;

use crate::apps;
use crate::apps::{app_key, app_name};
use crate::book;
use crate::programs;
use crate::programs::{
    identify, parse_protocol, protocol_scope, remove_rules_with_app_id, AppBlockModel, KnownApp,
    KnownModel, PendingModel, PendingProgram, ProgramPrompt, Programs, ProgramsModel, PromptModel,
    RuntimeAppBlock,
};
use crate::settings::{ProgramRule, RuleModel, StateModel};
use crate::text;
use crate::wfp;
use crate::wfp::{AppProtocol, Firewall, RawConn, RawModel, Request};

verus! {

/// Whether a text is one of the two decisions.
pub open spec fn is_decision(s: Seq<char>) -> bool {
    s == "allow"@ || s == "quarantine"@
}

fn check_decision(decision: &str) -> (r: Result<(), String>)
    ensures
        match r {
            Ok(_) => is_decision(decision@),
            Err(e) => !is_decision(decision@) && e@ == "decision must be allow or quarantine"@,
        },
{
    if text::same_text(decision, "allow") || text::same_text(decision, "quarantine") {
        Ok(())
    } else {
        Err("decision must be allow or quarantine".to_owned())
    }
}

/// Why a decision or a protocol is refused.
pub open spec fn refusal(decision: Seq<char>, protocol: Seq<char>) -> Option<Seq<char>> {
    if !is_decision(decision) {
        Some("decision must be allow or quarantine"@)
    } else if programs::protocol_named(protocol) is None {
        Some("protocol must be all, tcp or udp"@)
    } else {
        None
    }
}

/// The block of an application under a handle.
pub open spec fn block_entry(
    handle: u64,
    app_path: Seq<char>,
    app_name: Seq<char>,
    protocol: Seq<char>,
    temporary: bool,
) -> AppBlockModel {
    AppBlockModel { handle, app_path, app_name, protocol, temporary }
}

/// The rules after a rule was put in place of all that it replaces.
pub open spec fn ruled(
    rules: Seq<(Seq<char>, RuleModel)>,
    key: Seq<char>,
    rule: RuleModel,
) -> Seq<(Seq<char>, RuleModel)> {
    book::inserted(programs::purged(rules, key, rule.app_id), key, rule)
}

/// A decision that is being carried out.
pub struct Decision {
    pub key: String,
    pub pending: PendingProgram,
    pub decision: String,
    pub protocol: String,
    pub scope: AppProtocol,
}

#[verifier::ext_equal]
pub struct DecisionModel {
    pub key: Seq<char>,
    pub pending: PendingModel,
    pub decision: Seq<char>,
    pub protocol: Seq<char>,
    pub scope: AppProtocol,
}

impl View for Decision {
    type V = DecisionModel;

    open spec fn view(&self) -> DecisionModel {
        DecisionModel {
            key: self.key@,
            pending: self.pending@,
            decision: self.decision@,
            protocol: self.protocol@,
            scope: self.scope,
        }
    }
}

impl DecisionModel {
    /// The rule that the decision makes.
    pub open spec fn rule(self) -> RuleModel {
        RuleModel {
            app_path: self.pending.prompt.app_path,
            app_name: self.pending.prompt.app_name,
            app_id: self.pending.app_id,
            decision: self.decision,
            protocol: self.protocol,
            ..RuleModel::default_spec()
        }
    }

    /// The block that a decision to quarantine asks for, with the packet
    /// filter's reply.
    pub open spec fn block_request(self, reply: Result<u64, Seq<char>>) -> Request {
        Request::BlockApp { app_id: self.pending.app_id, protocol: self.scope, reply }
    }
}

impl ProgramsModel {
    /// Why a decision on a request is refused.
    pub open spec fn decision_refusal(
        self,
        request_id: Seq<char>,
        decision: Seq<char>,
        protocol: Seq<char>,
    ) -> Option<Seq<char>> {
        if refusal(decision, protocol) is Some {
            refusal(decision, protocol)
        } else if !book::has_key(self.pending, request_id) {
            Some("connection request is no longer pending"@)
        } else {
            None
        }
    }

    /// The decision on a request that is pending.
    pub open spec fn decision_on(
        self,
        request_id: Seq<char>,
        decision: Seq<char>,
        protocol: Seq<char>,
    ) -> DecisionModel {
        DecisionModel {
            key: request_id,
            pending: book::lookup(self.pending, request_id)->0,
            decision,
            protocol,
            scope: programs::protocol_named(protocol)->0,
        }
    }

    /// The state once the request is no longer pending.
    pub open spec fn taken(self, request_id: Seq<char>) -> ProgramsModel {
        ProgramsModel { pending: book::removed(self.pending, request_id), ..self }
    }

    /// The state with a program blocked under a handle.
    pub open spec fn blocking(self, key: Seq<char>, block: AppBlockModel) -> ProgramsModel {
        ProgramsModel { blocks: book::inserted(self.blocks, key, block), ..self }
    }

    /// The state with a remembered rule: it replaces the rules about the same
    /// program, those of the session too.
    pub open spec fn remembering(self, key: Seq<char>, rule: RuleModel) -> ProgramsModel {
        ProgramsModel {
            saved: StateModel { rules: ruled(self.saved.rules, key, rule), ..self.saved },
            session: programs::purged(self.session, key, rule.app_id),
            ..self
        }
    }

    /// The state with a rule for this session.
    pub open spec fn for_session(self, key: Seq<char>, rule: RuleModel) -> ProgramsModel {
        ProgramsModel { session: ruled(self.session, key, rule), ..self }
    }

    /// The state with a decision carried out; `handle` is that of the block
    /// where the decision is to quarantine.
    pub open spec fn decided(
        self,
        d: DecisionModel,
        remember: bool,
        handle: Option<u64>,
    ) -> ProgramsModel {
        let blocked = match handle {
            Some(h) => self.blocking(
                d.key,
                block_entry(
                    h,
                    d.pending.prompt.app_path,
                    d.pending.prompt.app_name,
                    d.protocol,
                    !remember,
                ),
            ),
            None => self,
        };
        if remember {
            blocked.remembering(d.key, d.rule())
        } else {
            blocked.for_session(d.key, d.rule())
        }
    }
}

impl Programs {
    /// Puts a remembered rule in place.
    fn remember_rule(&mut self, key: String, rule: ProgramRule)
        ensures
            final(self)@ == old(self)@.remembering(key@, rule@),
            old(self)@.wf() ==> final(self)@.wf(),
    {
        remove_rules_with_app_id(&mut self.session_rules, key.as_str(), &rule.app_id);
        remove_rules_with_app_id(&mut self.saved.rules, key.as_str(), &rule.app_id);
        let _ = self.saved.rules.insert(key, rule);
    }

    /// Decides on a pending request, first step: the request is no longer
    /// pending. Its temporary block is to be lifted, and where the decision is
    /// to quarantine, the program is to be blocked in the decision's scope.
    pub fn begin_decision(&mut self, request_id: &str, decision: &str, protocol: &str) -> (r: Result<
        Decision,
        String,
    >)
        ensures
            match r {
                Ok(d) => old(self)@.decision_refusal(request_id@, decision@, protocol@) is None
                    && d@ == old(self)@.decision_on(request_id@, decision@, protocol@)
                    && final(self)@ == old(self)@.taken(request_id@),
                Err(e) => old(self)@.decision_refusal(request_id@, decision@, protocol@) == Some(
                    e@,
                ) && final(self)@ == old(self)@,
            },
            old(self)@.wf() ==> final(self)@.wf(),
    {
        if let Err(e) = check_decision(decision) {
            return Err(e);
        }
        let scope: AppProtocol = match parse_protocol(protocol) {
            Ok(p) => p,
            Err(e) => {
                return Err(e);
            },
        };
        match self.pending.remove(request_id) {
            Some(pending) => Ok(
                Decision {
                    key: request_id.to_owned(),
                    pending,
                    decision: decision.to_owned(),
                    protocol: protocol.to_owned(),
                    scope,
                },
            ),
            None => Err("connection request is no longer pending".to_owned()),
        }
    }

    /// Decides on a pending request, second step: `handle` is that of the block
    /// where the decision is to quarantine. Tells whether there is something to
    /// save.
    pub fn finish_decision(&mut self, d: Decision, remember: bool, handle: Option<u64>) -> (r: bool)
        ensures
            r == remember,
            final(self)@ == old(self)@.decided(d@, remember, handle),
            old(self)@.wf() ==> final(self)@.wf(),
    {
        let ghost m = d@;
        if let Some(h) = handle {
            let block: RuntimeAppBlock = RuntimeAppBlock {
                handle: h,
                app_path: d.pending.prompt.app_path.clone(),
                app_name: d.pending.prompt.app_name.clone(),
                protocol: d.protocol.clone(),
                temporary: !remember,
            };
            let _ = self.app_blocks.insert(d.key.clone(), block);
        }
        let base: ProgramRule = ProgramRule::default();
        let rule: ProgramRule = ProgramRule {
            app_path: d.pending.prompt.app_path,
            app_name: d.pending.prompt.app_name,
            app_id: d.pending.app_id,
            decision: d.decision,
            protocol: d.protocol,
            app_package_sid: base.app_package_sid,
            direction: base.direction,
            target: base.target,
            expires_at_ms: base.expires_at_ms,
            profile_id: base.profile_id,
            created_at_ms: base.created_at_ms,
            updated_at_ms: base.updated_at_ms,
        };
        proof {
            assert(rule@ =~= m.rule());
        }
        if remember {
            self.remember_rule(d.key, rule);
        } else {
            remove_rules_with_app_id(&mut self.session_rules, d.key.as_str(), &rule.app_id);
            let _ = self.session_rules.insert(d.key, rule);
        }
        remember
    }

    /// Decides on a pending request. Tells whether there is something to save.
    /// A request that is refused does not reach the packet filter. Otherwise the
    /// temporary block is lifted, and then, where the decision is to quarantine,
    /// the program is blocked in the chosen scope, under the handle that the
    /// packet filter replies with; where it replies with an error, that is the
    /// error.
    pub fn decide_program<F: Firewall>(
        &mut self,
        fw: &mut F,
        request_id: &str,
        decision: &str,
        protocol: &str,
        remember: bool,
    ) -> (r: Result<bool, String>)
        ensures
            ({
                let m = old(self)@;
                let d = m.decision_on(request_id@, decision@, protocol@);
                let lifted = wfp::lifting(old(fw).asked(), d.pending.temporary_handle);
                match m.decision_refusal(request_id@, decision@, protocol@) {
                    Some(e) => r matches Err(x) && x@ == e && final(self)@ == m
                        && final(fw).asked() == old(fw).asked(),
                    None => if decision@ == "quarantine"@ {
                        match r {
                            Ok(save) => save == remember && exists|h: u64|
                                final(self)@ == #[trigger] m.taken(request_id@).decided(
                                    d,
                                    remember,
                                    Some(h),
                                ) && final(fw).asked() == lifted.push(d.block_request(Ok(h))),
                            Err(e) => final(self)@ == m.taken(request_id@) && final(fw).asked()
                                == lifted.push(d.block_request(Err(e@))),
                        }
                    } else {
                        r == Ok::<bool, String>(remember) && final(self)@ == m.taken(
                            request_id@,
                        ).decided(d, remember, None) && final(fw).asked() == lifted
                    },
                }
            }),
            old(self)@.wf() ==> final(self)@.wf(),
    {
        let d: Decision = match self.begin_decision(request_id, decision, protocol) {
            Ok(d) => d,
            Err(e) => {
                return Err(e);
            },
        };
        if let Some(handle) = d.pending.temporary_handle {
            let _ = fw.unblock(handle);
        }
        if text::same_text(decision, "quarantine") {
            match fw.block_app(&d.pending.app_id, d.scope) {
                Ok(handle) => Ok(self.finish_decision(d, remember, Some(handle))),
                Err(e) => Err(e),
            }
        } else {
            Ok(self.finish_decision(d, remember, None))
        }
    }
}

impl ProgramsModel {
    /// The state without any rule or block under a key.
    pub open spec fn without_rule(self, key: Seq<char>) -> ProgramsModel {
        ProgramsModel {
            saved: StateModel { rules: book::removed(self.saved.rules, key), ..self.saved },
            session: book::removed(self.session, key),
            blocks: book::removed(self.blocks, key),
            ..self
        }
    }

    /// The handle of the block under a key.
    pub open spec fn block_handle(self, key: Seq<char>) -> Option<u64> {
        match book::lookup(self.blocks, key) {
            Some(b) => Some(b.handle),
            None => None,
        }
    }
}

impl Programs {
    /// Takes out the rules and the block of a program, and has the packet filter
    /// lift the block.
    pub fn remove_program_rule<F: Firewall>(&mut self, fw: &mut F, app_path: &str)
        ensures
            final(self)@ == old(self)@.without_rule(apps::key_of(app_path@)),
            final(fw).asked() == wfp::lifting(
                old(fw).asked(),
                old(self)@.block_handle(apps::key_of(app_path@)),
            ),
            old(self)@.wf() ==> final(self)@.wf(),
    {
        let key: String = app_key(app_path);
        if let Some(handle) = self.remove_rule_under(key.as_str()) {
            let _ = fw.unblock(handle);
        }
    }

    /// Takes out the rules and the block under a key. Hands out the handle of
    /// the block, for it to be lifted.
    pub fn remove_rule_under(&mut self, key: &str) -> (r: Option<u64>)
        ensures
            final(self)@ == old(self)@.without_rule(key@),
            r == old(self)@.block_handle(key@),
            old(self)@.wf() ==> final(self)@.wf(),
    {
        let _ = self.saved.rules.remove(key);
        let _ = self.session_rules.remove(key);
        match self.app_blocks.remove(key) {
            Some(block) => Some(block.handle),
            None => None,
        }
    }
}

/// A change of a rule that is being carried out.
pub struct RuleChange {
    pub rule_key: String,
    /// The rule before the change.
    pub rule: ProgramRule,
    pub decision: String,
    pub protocol: String,
    pub scope: AppProtocol,
}

#[verifier::ext_equal]
pub struct ChangeModel {
    pub rule_key: Seq<char>,
    pub rule: RuleModel,
    pub decision: Seq<char>,
    pub protocol: Seq<char>,
    pub scope: AppProtocol,
}

impl View for RuleChange {
    type V = ChangeModel;

    open spec fn view(&self) -> ChangeModel {
        ChangeModel {
            rule_key: self.rule_key@,
            rule: self.rule@,
            decision: self.decision@,
            protocol: self.protocol@,
            scope: self.scope,
        }
    }
}

impl ChangeModel {
    /// The rule after the change.
    pub open spec fn changed(self) -> RuleModel {
        RuleModel { decision: self.decision, protocol: self.protocol, ..self.rule }
    }

    /// The block that a change to quarantine asks for, with the packet filter's
    /// reply.
    pub open spec fn block_request(self, reply: Result<u64, Seq<char>>) -> Request {
        Request::BlockApp { app_id: self.rule.app_id, protocol: self.scope, reply }
    }
}

impl ProgramsModel {
    /// The rule that a decision on a program changes: the one that applies to
    /// it where the program was observed, a new one where none applies, or the
    /// remembered one under its key.
    pub open spec fn rule_to_change(self, key: Seq<char>) -> Option<(Seq<char>, RuleModel)> {
        match book::lookup(self.known, key) {
            Some(known) => match self.rule_for(key, known.app_id) {
                Some(e) => Some(e),
                None => Some(
                    (
                        key,
                        RuleModel {
                            app_path: known.app_path,
                            app_name: known.app_name,
                            app_id: known.app_id,
                            decision: "allow"@,
                            protocol: "all"@,
                            ..RuleModel::default_spec()
                        },
                    ),
                ),
            },
            None => match book::lookup(self.saved.rules, key) {
                Some(rule) => Some((key, rule)),
                None => None,
            },
        }
    }

    /// Why a decision on a program is refused.
    pub open spec fn change_refusal(
        self,
        key: Seq<char>,
        decision: Seq<char>,
        protocol: Seq<char>,
    ) -> Option<Seq<char>> {
        if refusal(decision, protocol) is Some {
            refusal(decision, protocol)
        } else if self.rule_to_change(key) is None {
            Some("program was not observed in this session yet"@)
        } else {
            None
        }
    }

    /// The change that a decision on a program makes.
    pub open spec fn change_of(self, key: Seq<char>, decision: Seq<char>, protocol: Seq<char>) -> ChangeModel {
        let (rule_key, rule) = self.rule_to_change(key)->0;
        ChangeModel {
            rule_key,
            rule,
            decision,
            protocol,
            scope: programs::protocol_named(protocol)->0,
        }
    }

    /// The state with a change carried out; `handle` is that of the new block
    /// where the decision is to quarantine. A program that is allowed is not
    /// blocked any more.
    pub open spec fn changed(self, c: ChangeModel, handle: Option<u64>) -> ProgramsModel {
        let settled = match handle {
            Some(h) => self.blocking(
                c.rule_key,
                block_entry(h, c.rule.app_path, c.rule.app_name, c.protocol, false),
            ),
            None => ProgramsModel { blocks: book::removed(self.blocks, c.rule_key), ..self },
        };
        settled.remembering(c.rule_key, c.changed())
    }
}

impl Programs {
    /// Decides on a program, first step: nothing changes yet. Where the decision
    /// is to quarantine, the program of the rule is to be blocked in the scope.
    pub fn begin_change(&self, app_path: &str, decision: &str, protocol: &str) -> (r: Result<
        RuleChange,
        String,
    >)
        ensures
            match r {
                Ok(c) => self@.change_refusal(apps::key_of(app_path@), decision@, protocol@) is None
                    && c@ == self@.change_of(apps::key_of(app_path@), decision@, protocol@),
                Err(e) => self@.change_refusal(apps::key_of(app_path@), decision@, protocol@)
                    == Some(e@),
            },
    {
        let key: String = app_key(app_path);
        self.begin_change_under(key.as_str(), decision, protocol)
    }

    /// Decides on the program under a key, first step.
    pub fn begin_change_under(&self, key: &str, decision: &str, protocol: &str) -> (r: Result<
        RuleChange,
        String,
    >)
        ensures
            match r {
                Ok(c) => self@.change_refusal(key@, decision@, protocol@) is None && c@
                    == self@.change_of(key@, decision@, protocol@),
                Err(e) => self@.change_refusal(key@, decision@, protocol@) == Some(e@),
            },
    {
        if let Err(e) = check_decision(decision) {
            return Err(e);
        }
        let scope: AppProtocol = match parse_protocol(protocol) {
            Ok(p) => p,
            Err(e) => {
                return Err(e);
            },
        };
        let (rule_key, rule) = match self.known_apps.get(key) {
            Some(known) => match self.find_program_rule(key, &known.app_id) {
                Some(e) => e,
                None => (key.to_owned(), new_rule(known)),
            },
            None => match self.saved.rules.get(key) {
                Some(rule) => (key.to_owned(), rule.clone()),
                None => {
                    return Err("program was not observed in this session yet".to_owned());
                },
            },
        };
        Ok(
            RuleChange {
                rule_key,
                rule,
                decision: decision.to_owned(),
                protocol: protocol.to_owned(),
                scope,
            },
        )
    }

    /// Decides on a program, second step: `handle` is that of the new block
    /// where the decision is to quarantine. Hands out the handle of the block
    /// that was there, for it to be lifted.
    pub fn finish_change(&mut self, c: RuleChange, handle: Option<u64>) -> (r: Option<u64>)
        ensures
            final(self)@ == old(self)@.changed(c@, handle),
            r == old(self)@.block_handle(c@.rule_key),
            old(self)@.wf() ==> final(self)@.wf(),
    {
        let ghost m = c@;
        let previous: Option<RuntimeAppBlock> = match handle {
            Some(h) => {
                let block: RuntimeAppBlock = RuntimeAppBlock {
                    handle: h,
                    app_path: c.rule.app_path.clone(),
                    app_name: c.rule.app_name.clone(),
                    protocol: c.protocol.clone(),
                    temporary: false,
                };
                self.app_blocks.insert(c.rule_key.clone(), block)
            },
            None => self.app_blocks.remove(c.rule_key.as_str()),
        };
        let mut rule: ProgramRule = c.rule;
        rule.decision = c.decision;
        rule.protocol = c.protocol;
        proof {
            assert(rule@ =~= m.changed());
        }
        self.remember_rule(c.rule_key, rule);
        match previous {
            Some(block) => Some(block.handle),
            None => None,
        }
    }

    /// Decides on a program that was observed or that has a remembered rule.
    /// A decision that is refused does not reach the packet filter. Where the
    /// decision is to quarantine, the program is blocked in the chosen scope,
    /// under the handle that the packet filter replies with; where it replies
    /// with an error, that is the error, and nothing changes. The block that was
    /// there is lifted only after that.
    pub fn set_program_rule_decision<F: Firewall>(
        &mut self,
        fw: &mut F,
        app_path: &str,
        decision: &str,
        protocol: &str,
    ) -> (r: Result<(), String>)
        ensures
            ({
                let m = old(self)@;
                let key = apps::key_of(app_path@);
                let c = m.change_of(key, decision@, protocol@);
                match m.change_refusal(key, decision@, protocol@) {
                    Some(e) => r matches Err(x) && x@ == e && final(self)@ == m
                        && final(fw).asked() == old(fw).asked(),
                    None => if decision@ == "quarantine"@ {
                        match r {
                            Ok(_) => exists|h: u64|
                                final(self)@ == #[trigger] m.changed(c, Some(h))
                                    && final(fw).asked() == wfp::lifting(
                                    old(fw).asked().push(c.block_request(Ok(h))),
                                    m.block_handle(c.rule_key),
                                ),
                            Err(e) => final(self)@ == m && final(fw).asked() == old(
                                fw,
                            ).asked().push(c.block_request(Err(e@))),
                        }
                    } else {
                        r is Ok && final(self)@ == m.changed(c, None) && final(fw).asked()
                            == wfp::lifting(old(fw).asked(), m.block_handle(c.rule_key))
                    },
                }
            }),
            old(self)@.wf() ==> final(self)@.wf(),
    {
        let c: RuleChange = match self.begin_change(app_path, decision, protocol) {
            Ok(c) => c,
            Err(e) => {
                return Err(e);
            },
        };
        let handle: Option<u64> = if text::same_text(decision, "quarantine") {
            match fw.block_app(&c.rule.app_id, c.scope) {
                Ok(h) => Some(h),
                Err(e) => {
                    return Err(e);
                },
            }
        } else {
            None
        };
        if let Some(previous) = self.finish_change(c, handle) {
            let _ = fw.unblock(previous);
        }
        Ok(())
    }
}

/// The rule of a program that has none.
fn new_rule(known: &KnownApp) -> (r: ProgramRule)
    ensures
        r@ == (RuleModel {
            app_path: known@.app_path,
            app_name: known@.app_name,
            app_id: known@.app_id,
            decision: "allow"@,
            protocol: "all"@,
            ..RuleModel::default_spec()
        }),
{
    let mut r: ProgramRule = ProgramRule::default();
    r.app_path = known.app_path.clone();
    r.app_name = known.app_name.clone();
    r.app_id = text::copy_bytes(&known.app_id);
    r
}

/// What is to be done about the program behind a connection.
pub enum Inspection {
    Nothing,
    /// Block the program of the quarantine rule under the key.
    Enforce { rule_key: String, rule: ProgramRule },
    /// Block the program for the time being, and ask the user.
    Ask { prompt: ProgramPrompt, app_id: Vec<u8> },
}

pub enum InspectionModel {
    Nothing,
    Enforce { rule_key: Seq<char>, rule: RuleModel },
    Ask { prompt: PromptModel, app_id: Seq<u8> },
}

impl View for Inspection {
    type V = InspectionModel;

    open spec fn view(&self) -> InspectionModel {
        match self {
            Inspection::Nothing => InspectionModel::Nothing,
            Inspection::Enforce { rule_key, rule } => InspectionModel::Enforce {
                rule_key: rule_key@,
                rule: rule@,
            },
            Inspection::Ask { prompt, app_id } => InspectionModel::Ask {
                prompt: prompt@,
                app_id: app_id@,
            },
        }
    }
}

/// The question about a new program.
pub open spec fn prompt_for(raw: RawModel, path: Seq<char>) -> PromptModel {
    PromptModel {
        id: apps::key_of(path),
        app_path: path,
        app_name: apps::name_of(path),
        direction: "outbound"@,
        protocol: if raw.udp {
            "udp"@
        } else {
            "tcp"@
        },
        remote_ip: raw.remote_ip.text(),
        remote_port: raw.remote_port,
        local_port: raw.local_port,
        first_connection_may_have_passed: true,
    }
}

impl ProgramsModel {
    /// What is to be done about the program behind a connection. Inbound
    /// connections and those of unidentified programs are no matter of program
    /// rules. A program with a rule is only blocked, where the rule says so and
    /// it is not blocked yet. The user is asked about any other, once, where
    /// they want to be asked.
    pub open spec fn inspection(self, raw: RawModel) -> InspectionModel {
        match identified_outbound(raw) {
            None => InspectionModel::Nothing,
            Some((path, id)) => {
                let key = apps::key_of(path);
                match self.rule_for(key, id) {
                    Some((rule_key, rule)) => if rule.decision == "quarantine"@ && !book::has_key(
                        self.blocks,
                        rule_key,
                    ) {
                        InspectionModel::Enforce { rule_key, rule }
                    } else {
                        InspectionModel::Nothing
                    },
                    None => if !self.saved.settings.ask_new_apps || self.asking(key, id)
                        || book::has_key(self.blocks, key) {
                        InspectionModel::Nothing
                    } else {
                        InspectionModel::Ask { prompt: prompt_for(raw, path), app_id: id }
                    },
                }
            },
        }
    }

    /// The state after the inspection, with the packet filter's reply.
    pub open spec fn inspected(self, i: InspectionModel, handle: Option<u64>) -> ProgramsModel {
        match i {
            InspectionModel::Nothing => self,
            InspectionModel::Enforce { rule_key, rule } => match handle {
                Some(h) => self.blocking(
                    rule_key,
                    block_entry(h, rule.app_path, rule.app_name, rule.protocol, false),
                ),
                None => self,
            },
            InspectionModel::Ask { prompt, app_id } => ProgramsModel {
                pending: book::inserted(
                    self.pending,
                    prompt.id,
                    PendingModel { prompt, app_id, temporary_handle: handle },
                ),
                ..self
            },
        }
    }
}

/// The program behind an outbound connection.
pub open spec fn identified_outbound(raw: RawModel) -> Option<(Seq<char>, Seq<u8>)> {
    if raw.inbound {
        None
    } else {
        programs::identified(raw)
    }
}

/// What is asked of the packet filter.
pub open spec fn inspection_request(i: InspectionModel) -> Option<(Seq<u8>, AppProtocol)> {
    match i {
        InspectionModel::Nothing => None,
        InspectionModel::Enforce { rule, .. } => Some(
            (rule.app_id, programs::protocol_or_all(rule.protocol)),
        ),
        InspectionModel::Ask { app_id, .. } => Some((app_id, AppProtocol::All)),
    }
}

/// What was asked of the packet filter once a block was asked for, where there
/// is one to ask for.
pub open spec fn asked_for(
    asked: Seq<Request>,
    block: Option<(Seq<u8>, AppProtocol)>,
    reply: Result<u64, Seq<char>>,
) -> Seq<Request> {
    match block {
        Some((app_id, protocol)) => asked.push(Request::BlockApp { app_id, protocol, reply }),
        None => asked,
    }
}

impl Inspection {
    /// The block to ask of the packet filter.
    pub fn request(&self) -> (r: Option<(&Vec<u8>, AppProtocol)>)
        ensures
            match r {
                Some((id, p)) => inspection_request(self@) == Some((id@, p)),
                None => inspection_request(self@) is None,
            },
    {
        match self {
            Inspection::Nothing => None,
            Inspection::Enforce { rule, .. } => Some(
                (&rule.app_id, protocol_scope(rule.protocol.as_str())),
            ),
            Inspection::Ask { app_id, .. } => Some((app_id, AppProtocol::All)),
        }
    }
}

impl Programs {
    /// Inspects the program behind a connection, first step: nothing changes
    /// yet.
    pub fn begin_inspection(&self, raw: &RawConn) -> (r: Inspection)
        ensures
            r@ == self@.inspection(raw@),
    {
        if raw.inbound {
            return Inspection::Nothing;
        }
        let (path, id) = match identify(raw) {
            Some(x) => x,
            None => {
                return Inspection::Nothing;
            },
        };
        let key: String = app_key(path.as_str());
        if let Some((rule_key, rule)) = self.find_program_rule(key.as_str(), id) {
            if text::same_text(rule.decision.as_str(), "quarantine")
                && !self.app_blocks.contains_key(rule_key.as_str()) {
                return Inspection::Enforce { rule_key, rule };
            }
            return Inspection::Nothing;
        }
        if !self.saved.settings.ask_new_apps || self.has_pending_program(key.as_str(), id)
            || self.app_blocks.contains_key(key.as_str()) {
            return Inspection::Nothing;
        }
        let prompt: ProgramPrompt = ProgramPrompt {
            id: key,
            app_path: path.clone(),
            app_name: app_name(path.as_str()),
            direction: "outbound".to_owned(),
            protocol: if raw.udp {
                "udp".to_owned()
            } else {
                "tcp".to_owned()
            },
            remote_ip: raw.remote_ip.to_string(),
            remote_port: raw.remote_port,
            local_port: raw.local_port,
            first_connection_may_have_passed: true,
        };
        Inspection::Ask { prompt, app_id: text::copy_bytes(id) }
    }

    /// Inspects the program behind a connection, second step. `handle` is that
    /// of the block that was asked for, where it could be installed. Hands out
    /// the question to put to the user.
    pub fn finish_inspection(&mut self, i: Inspection, handle: Option<u64>) -> (r: Option<
        ProgramPrompt,
    >)
        ensures
            final(self)@ == old(self)@.inspected(i@, handle),
            match r {
                Some(p) => i@ is Ask && p@ == i@->prompt,
                None => !(i@ is Ask),
            },
            old(self)@.wf() ==> final(self)@.wf(),
    {
        match i {
            Inspection::Nothing => None,
            Inspection::Enforce { rule_key, rule } => {
                if let Some(h) = handle {
                    let block: RuntimeAppBlock = RuntimeAppBlock {
                        handle: h,
                        app_path: rule.app_path,
                        app_name: rule.app_name,
                        protocol: rule.protocol,
                        temporary: false,
                    };
                    let _ = self.app_blocks.insert(rule_key, block);
                }
                None
            },
            Inspection::Ask { prompt, app_id } => {
                let shown: ProgramPrompt = prompt.clone();
                let key: String = prompt.id.clone();
                let _ = self.pending.insert(
                    key,
                    PendingProgram { prompt, app_id, temporary_handle: handle },
                );
                Some(shown)
            },
        }
    }

    /// Inspects the program behind a connection. Hands out the question to put
    /// to the user. The packet filter is asked for one block before that, where
    /// there is one to ask for; a new program is asked about whatever it
    /// replies.
    pub fn inspect_program<F: Firewall>(&mut self, fw: &mut F, raw: &RawConn) -> (r: Option<
        ProgramPrompt,
    >)
        ensures
            ({
                let i = old(self)@.inspection(raw@);
                &&& exists|reply: Result<u64, Seq<char>>|
                    final(self)@ == old(self)@.inspected(i, #[trigger] wfp::granted(reply))
                        && final(fw).asked() == asked_for(
                        old(fw).asked(),
                        inspection_request(i),
                        reply,
                    )
                &&& match r {
                    Some(p) => i is Ask && p@ == i->prompt,
                    None => !(i is Ask),
                }
            }),
            old(self)@.wf() ==> final(self)@.wf(),
    {
        let i: Inspection = self.begin_inspection(raw);
        let ghost mut reply: Result<u64, Seq<char>> = Err(Seq::empty());
        let handle: Option<u64> = match i.request() {
            Some((app_id, protocol)) => {
                let answer: Result<u64, String> = fw.block_app(app_id, protocol);
                proof {
                    reply = wfp::reply_of(answer);
                }
                match answer {
                    Ok(h) => Some(h),
                    Err(_) => None,
                }
            },
            None => None,
        };
        proof {
            assert(handle == wfp::granted(reply));
        }
        self.finish_inspection(i, handle)
    }
}

impl ProgramsModel {
    /// The block of a remembered quarantine rule.
    pub open spec fn restored_block(self, i: int, handle: u64) -> AppBlockModel {
        let rule = self.saved.rules[i].1;
        block_entry(handle, rule.app_path, rule.app_name, rule.protocol, false)
    }

    /// The state after the first `n` remembered rules were restored with the
    /// given replies: the programs of quarantine rules are blocked, as far as
    /// the packet filter did it.
    pub open spec fn restored(self, replies: Seq<Result<u64, Seq<char>>>, n: int) -> ProgramsModel
        decreases n,
    {
        if n <= 0 {
            self
        } else {
            let m = self.restored(replies, n - 1);
            match replies[n - 1] {
                Ok(h) if self.saved.rules[n - 1].1.decision == "quarantine"@ => m.blocking(
                    self.saved.rules[n - 1].0,
                    self.restored_block(n - 1, h),
                ),
                _ => m,
            }
        }
    }

    /// The block that a remembered rule asks for.
    pub open spec fn restore_request_spec(self, i: int) -> Option<(Seq<u8>, AppProtocol)> {
        let rule = self.saved.rules[i].1;
        if rule.decision == "quarantine"@ {
            Some((rule.app_id, programs::protocol_or_all(rule.protocol)))
        } else {
            None
        }
    }

    /// What was asked of the packet filter after the first `n` remembered rules
    /// were restored: one block for each quarantine rule, in the order of the
    /// rules.
    pub open spec fn restore_asked(
        self,
        asked: Seq<Request>,
        replies: Seq<Result<u64, Seq<char>>>,
        n: int,
    ) -> Seq<Request>
        decreases n,
    {
        if n <= 0 {
            asked
        } else {
            asked_for(
                self.restore_asked(asked, replies, n - 1),
                self.restore_request_spec(n - 1),
                replies[n - 1],
            )
        }
    }
}

proof fn lemma_restored_prefix(
    m: ProgramsModel,
    asked: Seq<Request>,
    a: Seq<Result<u64, Seq<char>>>,
    b: Seq<Result<u64, Seq<char>>>,
    n: int,
)
    requires
        forall|i: int| 0 <= i < n ==> a[i] == b[i],
    ensures
        m.restored(a, n) == m.restored(b, n),
        m.restore_asked(asked, a, n) == m.restore_asked(asked, b, n),
    decreases n,
{
    if n > 0 {
        lemma_restored_prefix(m, asked, a, b, n - 1);
    }
}

/// Restoring blocks nothing but what it blocks: rules, questions and known
/// programs stay.
pub proof fn lemma_restored_rules(m: ProgramsModel, replies: Seq<Result<u64, Seq<char>>>, n: int)
    ensures
        m.restored(replies, n).saved == m.saved,
        m.restored(replies, n).session == m.session,
        m.restored(replies, n).pending == m.pending,
        m.restored(replies, n).known == m.known,
        m.wf() ==> m.restored(replies, n).wf(),
    decreases n,
{
    if n > 0 {
        lemma_restored_rules(m, replies, n - 1);
        let p = m.restored(replies, n - 1);
        if let Ok(h) = replies[n - 1] {
            let key = m.saved.rules[n - 1].0;
            book::insert_then_lookup(p.blocks, key, m.restored_block(n - 1, h), key);
        }
    }
}

impl Programs {
    /// The block to ask for when the remembered rule at a place is restored.
    pub fn restore_request(&self, i: usize) -> (r: Option<(&Vec<u8>, AppProtocol)>)
        requires
            i < self@.saved.rules.len(),
        ensures
            match r {
                Some((id, p)) => self@.restore_request_spec(i as int) == Some((id@, p)),
                None => self@.restore_request_spec(i as int) is None,
            },
    {
        let rule: &ProgramRule = self.saved.rules.value_at(i);
        if text::same_text(rule.decision.as_str(), "quarantine") {
            Some((&rule.app_id, protocol_scope(rule.protocol.as_str())))
        } else {
            None
        }
    }

    /// Takes note that the program of the remembered rule at a place is blocked.
    pub fn restore_block(&mut self, i: usize, handle: u64)
        requires
            i < old(self)@.saved.rules.len(),
        ensures
            final(self)@ == old(self)@.blocking(
                old(self)@.saved.rules[i as int].0,
                old(self)@.restored_block(i as int, handle),
            ),
            old(self)@.wf() ==> final(self)@.wf(),
    {
        let rule: &ProgramRule = self.saved.rules.value_at(i);
        let key: String = self.saved.rules.key_at(i).to_owned();
        let block: RuntimeAppBlock = RuntimeAppBlock {
            handle,
            app_path: rule.app_path.clone(),
            app_name: rule.app_name.clone(),
            protocol: rule.protocol.clone(),
            temporary: false,
        };
        let _ = self.app_blocks.insert(key, block);
    }

    /// Blocks the programs of remembered quarantine rules, before new
    /// observations are made: the packet filter is asked for the block of each,
    /// in the order of the rules, and what it did is noted.
    pub fn restore_quarantines<F: Firewall>(&mut self, fw: &mut F)
        ensures
            exists|replies: Seq<Result<u64, Seq<char>>>|
                replies.len() == old(self)@.saved.rules.len() && final(self)@ == #[trigger] old(
                    self,
                )@.restored(replies, old(self)@.saved.rules.len() as int) && final(fw).asked()
                    == old(self)@.restore_asked(
                    old(fw).asked(),
                    replies,
                    old(self)@.saved.rules.len() as int,
                ),
            old(self)@.wf() ==> final(self)@.wf(),
    {
        let ghost m = self@;
        let ghost asked = fw.asked();
        let ghost mut replies: Seq<Result<u64, Seq<char>>> = Seq::empty();
        let n: usize = self.saved.rules.len();
        let mut i: usize = 0;
        while i < n
            invariant
                i <= n,
                n == m.saved.rules.len(),
                m == old(self)@,
                asked == old(fw).asked(),
                replies.len() == i,
                self@ == m.restored(replies, i as int),
                fw.asked() == m.restore_asked(asked, replies, i as int),
            decreases n - i,
        {
            proof {
                lemma_restored_rules(m, replies, i as int);
            }
            let ghost mut reply: Result<u64, Seq<char>> = Err(Seq::empty());
            let handle: Option<u64> = match self.restore_request(i) {
                Some((app_id, protocol)) => {
                    let answer: Result<u64, String> = fw.block_app(app_id, protocol);
                    proof {
                        reply = wfp::reply_of(answer);
                    }
                    match answer {
                        Ok(h) => Some(h),
                        Err(_) => None,
                    }
                },
                None => None,
            };
            if let Some(h) = handle {
                self.restore_block(i, h);
            }
            proof {
                let longer = replies.push(reply);
                lemma_restored_prefix(m, asked, replies, longer, i as int);
                replies = longer;
            }
            i = i + 1;
        }
        proof {
            lemma_restored_rules(m, replies, n as int);
        }
    }
}

} // verus!
