//! Application control: which programs are ruled, pending, blocked or known.
//!
//! Remembered rules are part of the persistent state; everything else lives as
//! long as the session. All of it is filed under the application's key.

pub mod decisions;
pub mod laws;
pub mod quarantine;

use vstd::prelude::*;
use vstd::string::*;

use crate::apps;
use crate::apps::{app_key, app_name, is_blank};
use crate::book;
use crate::book::Book;
use crate::settings::{AppSettings, PersistentState, ProgramRule, RuleModel, StateModel};
use crate::text;
use crate::wfp::{AppProtocol, RawConn, RawModel};

verus! {

/// What the user is asked about a new program.
#[derive(Debug, PartialEq, Eq)]
pub struct ProgramPrompt {
    pub id: String,
    pub app_path: String,
    pub app_name: String,
    pub direction: String,
    pub protocol: String,
    pub remote_ip: String,
    pub remote_port: u16,
    pub local_port: u16,
    pub first_connection_may_have_passed: bool,
}

#[verifier::ext_equal]
pub struct PromptModel {
    pub id: Seq<char>,
    pub app_path: Seq<char>,
    pub app_name: Seq<char>,
    pub direction: Seq<char>,
    pub protocol: Seq<char>,
    pub remote_ip: Seq<char>,
    pub remote_port: u16,
    pub local_port: u16,
    pub first_connection_may_have_passed: bool,
}

impl View for ProgramPrompt {
    type V = PromptModel;

    open spec fn view(&self) -> PromptModel {
        PromptModel {
            id: self.id@,
            app_path: self.app_path@,
            app_name: self.app_name@,
            direction: self.direction@,
            protocol: self.protocol@,
            remote_ip: self.remote_ip@,
            remote_port: self.remote_port,
            local_port: self.local_port,
            first_connection_may_have_passed: self.first_connection_may_have_passed,
        }
    }
}

impl Clone for ProgramPrompt {
    fn clone(&self) -> (r: Self)
        ensures
            r@ == self@,
    {
        ProgramPrompt {
            id: self.id.clone(),
            app_path: self.app_path.clone(),
            app_name: self.app_name.clone(),
            direction: self.direction.clone(),
            protocol: self.protocol.clone(),
            remote_ip: self.remote_ip.clone(),
            remote_port: self.remote_port,
            local_port: self.local_port,
            first_connection_may_have_passed: self.first_connection_may_have_passed,
        }
    }
}

/// A program that waits for the user's decision.
#[derive(Debug, PartialEq, Eq)]
pub struct PendingProgram {
    pub prompt: ProgramPrompt,
    pub app_id: Vec<u8>,
    /// The block that holds while the user thinks, where it could be installed.
    pub temporary_handle: Option<u64>,
}

#[verifier::ext_equal]
pub struct PendingModel {
    pub prompt: PromptModel,
    pub app_id: Seq<u8>,
    pub temporary_handle: Option<u64>,
}

impl View for PendingProgram {
    type V = PendingModel;

    open spec fn view(&self) -> PendingModel {
        PendingModel {
            prompt: self.prompt@,
            app_id: self.app_id@,
            temporary_handle: self.temporary_handle,
        }
    }
}

/// A program that is blocked in this session.
#[derive(Debug, PartialEq, Eq)]
pub struct RuntimeAppBlock {
    pub handle: u64,
    pub app_path: String,
    pub app_name: String,
    pub protocol: String,
    pub temporary: bool,
}

#[verifier::ext_equal]
pub struct AppBlockModel {
    pub handle: u64,
    pub app_path: Seq<char>,
    pub app_name: Seq<char>,
    pub protocol: Seq<char>,
    pub temporary: bool,
}

impl View for RuntimeAppBlock {
    type V = AppBlockModel;

    open spec fn view(&self) -> AppBlockModel {
        AppBlockModel {
            handle: self.handle,
            app_path: self.app_path@,
            app_name: self.app_name@,
            protocol: self.protocol@,
            temporary: self.temporary,
        }
    }
}

/// A program that was observed in this session.
#[derive(Debug, PartialEq, Eq)]
pub struct KnownApp {
    pub app_path: String,
    pub app_name: String,
    pub app_id: Vec<u8>,
}

#[verifier::ext_equal]
pub struct KnownModel {
    pub app_path: Seq<char>,
    pub app_name: Seq<char>,
    pub app_id: Seq<u8>,
}

impl View for KnownApp {
    type V = KnownModel;

    open spec fn view(&self) -> KnownModel {
        KnownModel { app_path: self.app_path@, app_name: self.app_name@, app_id: self.app_id@ }
    }
}

/// Whether a rule is about the application with that identifier.
pub open spec fn has_id(rule_id: Seq<u8>, app_id: Seq<u8>) -> bool {
    rule_id.len() > 0 && rule_id == app_id
}

/// The first rule about the application with that identifier.
pub open spec fn first_with_id(rules: Seq<(Seq<char>, RuleModel)>, app_id: Seq<u8>) -> Option<
    (Seq<char>, RuleModel),
>
    decreases rules.len(),
{
    if rules.len() == 0 {
        None
    } else if has_id(rules[0].1.app_id, app_id) {
        Some(rules[0])
    } else {
        first_with_id(rules.drop_first(), app_id)
    }
}

/// The rule under the key, or else one about the same application.
pub open spec fn found_in(
    rules: Seq<(Seq<char>, RuleModel)>,
    key: Seq<char>,
    app_id: Seq<u8>,
) -> Option<(Seq<char>, RuleModel)> {
    match book::lookup(rules, key) {
        Some(rule) => Some((key, rule)),
        None => first_with_id(rules, app_id),
    }
}

/// Whether an entry is neither under the key nor about the application.
pub open spec fn kept(key: Seq<char>, app_id: Seq<u8>) -> spec_fn((Seq<char>, RuleModel)) -> bool {
    |e: (Seq<char>, RuleModel)| !(e.0 == key || has_id(e.1.app_id, app_id))
}

/// The rules without those under the key or about the application.
pub open spec fn purged(
    rules: Seq<(Seq<char>, RuleModel)>,
    key: Seq<char>,
    app_id: Seq<u8>,
) -> Seq<(Seq<char>, RuleModel)> {
    rules.filter(kept(key, app_id))
}

/// A pair of a key and a rule, as text and model.
pub open spec fn entry_option(e: Option<(String, ProgramRule)>) -> Option<(Seq<char>, RuleModel)> {
    match e {
        Some((key, rule)) => Some((key@, rule@)),
        None => None,
    }
}

/// The rule under the key, or else one about the same application.
pub fn find_rule_in(rules: &Book<ProgramRule>, key: &str, app_id: &Vec<u8>) -> (r: Option<
    (String, ProgramRule),
>)
    ensures
        entry_option(r) == found_in(rules@, key@, app_id@),
{
    if let Some(rule) = rules.get(key) {
        return Some((key.to_owned(), rule.clone()));
    }
    let mut i: usize = 0;
    proof {
        assert(rules@.skip(0) =~= rules@);
    }
    while i < rules.len()
        invariant
            i <= rules@.len(),
            book::lookup(rules@, key@) is None,
            first_with_id(rules@, app_id@) == first_with_id(rules@.skip(i as int), app_id@),
        decreases rules@.len() - i,
    {
        let rule: &ProgramRule = rules.value_at(i);
        proof {
            assert(rules@.skip(i as int).drop_first() =~= rules@.skip(i + 1));
        }
        if rule.app_id.len() > 0 && text::same_bytes(&rule.app_id, app_id) {
            return Some((rules.key_at(i).to_owned(), rule.clone()));
        }
        i = i + 1;
    }
    None
}

/// Takes out the rules under the key or about the application.
pub fn remove_rules_with_app_id(rules: &mut Book<ProgramRule>, key: &str, app_id: &Vec<u8>)
    ensures
        final(rules)@ == purged(old(rules)@, key@, app_id@),
        book::distinct(old(rules)@) ==> book::distinct(final(rules)@),
{
    let ghost all = rules@;
    let ghost mut done: int = 0;
    let mut i: usize = 0;
    proof {
        reveal(Seq::filter);
        assert(all.take(0).filter(kept(key@, app_id@)) =~= Seq::<(Seq<char>, RuleModel)>::empty());
        assert(rules@ =~= all.take(0).filter(kept(key@, app_id@)) + all.skip(0));
    }
    while i < rules.len()
        invariant
            0 <= done <= all.len(),
            all == old(rules)@,
            i == all.take(done).filter(kept(key@, app_id@)).len(),
            rules@ == all.take(done).filter(kept(key@, app_id@)) + all.skip(done),
        decreases all.len() - done,
    {
        proof {
            reveal(Seq::filter);
            assert(all.take(done + 1).drop_last() =~= all.take(done));
            assert(rules@[i as int] == all[done]);
        }
        let matching: bool = {
            let rule: &ProgramRule = rules.value_at(i);
            text::same_text(rules.key_at(i), key) || (rule.app_id.len() > 0 && text::same_bytes(
                &rule.app_id,
                app_id,
            ))
        };
        let ghost before = rules@;
        if matching {
            let _ = rules.remove_at(i);
            proof {
                assert(rules@ =~= all.take(done + 1).filter(kept(key@, app_id@)) + all.skip(
                    done + 1,
                ));
            }
        } else {
            proof {
                assert(before =~= all.take(done + 1).filter(kept(key@, app_id@)) + all.skip(
                    done + 1,
                ));
            }
            i = i + 1;
        }
        proof {
            done = done + 1;
        }
    }
    proof {
        assert(all.take(done) =~= all);
        assert(rules@ =~= purged(all, key@, app_id@));
        if book::distinct(all) {
            laws::lemma_purged_distinct(all, key@, app_id@);
        }
    }
}

/// The protocol that a text names.
pub open spec fn protocol_named(s: Seq<char>) -> Option<AppProtocol> {
    if s == "all"@ {
        Some(AppProtocol::All)
    } else if s == "tcp"@ {
        Some(AppProtocol::Tcp)
    } else if s == "udp"@ {
        Some(AppProtocol::Udp)
    } else {
        None
    }
}

/// The protocol that a text names, or all where it names none.
pub open spec fn protocol_or_all(s: Seq<char>) -> AppProtocol {
    match protocol_named(s) {
        Some(p) => p,
        None => AppProtocol::All,
    }
}

pub fn parse_protocol(value: &str) -> (r: Result<AppProtocol, String>)
    ensures
        match r {
            Ok(p) => protocol_named(value@) == Some(p),
            Err(e) => protocol_named(value@) is None && e@ == "protocol must be all, tcp or udp"@,
        },
{
    if text::same_text(value, "all") {
        Ok(AppProtocol::All)
    } else if text::same_text(value, "tcp") {
        Ok(AppProtocol::Tcp)
    } else if text::same_text(value, "udp") {
        Ok(AppProtocol::Udp)
    } else {
        Err("protocol must be all, tcp or udp".to_owned())
    }
}

fn protocol_scope(value: &str) -> (r: AppProtocol)
    ensures
        r == protocol_or_all(value@),
{
    match parse_protocol(value) {
        Ok(p) => p,
        Err(_) => AppProtocol::All,
    }
}

/// The state of application control.
pub struct Programs {
    saved: PersistentState,
    session_rules: Book<ProgramRule>,
    pending: Book<PendingProgram>,
    app_blocks: Book<RuntimeAppBlock>,
    known_apps: Book<KnownApp>,
}

#[verifier::ext_equal]
pub struct ProgramsModel {
    /// What is kept on disk: the settings and the remembered rules.
    pub saved: StateModel,
    /// Rules that hold for this session.
    pub session: Seq<(Seq<char>, RuleModel)>,
    pub pending: Seq<(Seq<char>, PendingModel)>,
    pub blocks: Seq<(Seq<char>, AppBlockModel)>,
    pub known: Seq<(Seq<char>, KnownModel)>,
}

impl View for Programs {
    type V = ProgramsModel;

    closed spec fn view(&self) -> ProgramsModel {
        ProgramsModel {
            saved: self.saved@,
            session: self.session_rules@,
            pending: self.pending@,
            blocks: self.app_blocks@,
            known: self.known_apps@,
        }
    }
}

/// The path and identifier of the application behind a connection, where both
/// are known and the path is not blank.
pub open spec fn identified(raw: RawModel) -> Option<(Seq<char>, Seq<u8>)> {
    match (raw.app_path, raw.app_id) {
        (Some(path), Some(id)) if apps::trimmed(path).len() > 0 && id.len() > 0 => Some((path, id)),
        _ => None,
    }
}

impl ProgramsModel {
    /// No key occurs twice.
    pub open spec fn wf(self) -> bool {
        &&& book::distinct(self.saved.rules)
        &&& book::distinct(self.session)
        &&& book::distinct(self.pending)
        &&& book::distinct(self.blocks)
        &&& book::distinct(self.known)
    }

    /// The rule that applies to an application: a remembered one, or else one of
    /// this session.
    pub open spec fn rule_for(self, key: Seq<char>, app_id: Seq<u8>) -> Option<
        (Seq<char>, RuleModel),
    > {
        match found_in(self.saved.rules, key, app_id) {
            Some(e) => Some(e),
            None => found_in(self.session, key, app_id),
        }
    }

    /// Whether the user is already being asked about an application.
    pub open spec fn asking(self, key: Seq<char>, app_id: Seq<u8>) -> bool {
        book::has_key(self.pending, key) || exists|i: int|
            0 <= i < self.pending.len() && has_id((#[trigger] self.pending[i]).1.app_id, app_id)
    }

    /// The state after an observation: its application is known.
    pub open spec fn acquainted(self, raw: RawModel) -> ProgramsModel {
        match identified(raw) {
            Some((path, id)) => ProgramsModel {
                known: book::inserted(
                    self.known,
                    apps::key_of(path),
                    KnownModel { app_path: path, app_name: apps::name_of(path), app_id: id },
                ),
                ..self
            },
            None => self,
        }
    }
}

/// The path and identifier of the application behind a connection.
pub(crate) fn identify(raw: &RawConn) -> (r: Option<(&String, &Vec<u8>)>)
    ensures
        match r {
            Some((path, id)) => identified(raw@) == Some((path@, id@)),
            None => identified(raw@) is None,
        },
{
    match (&raw.app_path, &raw.app_id) {
        (Some(path), Some(id)) => {
            if is_blank(path.as_str()) || id.len() == 0 {
                None
            } else {
                Some((path, id))
            }
        },
        _ => None,
    }
}

impl Programs {
    /// A new session on what was kept on disk.
    pub fn new(saved: PersistentState) -> (r: Self)
        ensures
            r@ == (ProgramsModel {
                saved: saved@,
                session: Seq::empty(),
                pending: Seq::empty(),
                blocks: Seq::empty(),
                known: Seq::empty(),
            }),
            book::distinct(saved@.rules) ==> r@.wf(),
    {
        Programs {
            saved,
            session_rules: Book::new(),
            pending: Book::new(),
            app_blocks: Book::new(),
            known_apps: Book::new(),
        }
    }

    /// What is to be kept on disk.
    pub fn saved(&self) -> (r: &PersistentState)
        ensures
            r@ == self@.saved,
    {
        &self.saved
    }

    pub fn session_rules(&self) -> (r: &Book<ProgramRule>)
        ensures
            r@ == self@.session,
    {
        &self.session_rules
    }

    pub fn pending(&self) -> (r: &Book<PendingProgram>)
        ensures
            r@ == self@.pending,
    {
        &self.pending
    }

    pub fn app_blocks(&self) -> (r: &Book<RuntimeAppBlock>)
        ensures
            r@ == self@.blocks,
    {
        &self.app_blocks
    }

    /// Replaces the settings.
    pub fn set_app_settings(&mut self, settings: AppSettings)
        ensures
            final(self)@ == (ProgramsModel {
                saved: StateModel { settings: settings@, ..old(self)@.saved },
                ..old(self)@
            }),
            old(self)@.wf() ==> final(self)@.wf(),
    {
        self.saved.settings = settings;
    }

    /// The rule that applies to an application.
    pub fn find_program_rule(&self, key: &str, app_id: &Vec<u8>) -> (r: Option<
        (String, ProgramRule),
    >)
        ensures
            entry_option(r) == self@.rule_for(key@, app_id@),
    {
        match find_rule_in(&self.saved.rules, key, app_id) {
            Some(e) => Some(e),
            None => find_rule_in(&self.session_rules, key, app_id),
        }
    }

    /// Whether the user is already being asked about an application.
    pub fn has_pending_program(&self, key: &str, app_id: &Vec<u8>) -> (r: bool)
        ensures
            r == self@.asking(key@, app_id@),
    {
        if self.pending.contains_key(key) {
            return true;
        }
        let mut i: usize = 0;
        while i < self.pending.len()
            invariant
                i <= self@.pending.len(),
                !book::has_key(self@.pending, key@),
                forall|j: int|
                    0 <= j < i ==> !has_id((#[trigger] self@.pending[j]).1.app_id, app_id@),
            decreases self@.pending.len() - i,
        {
            let p: &PendingProgram = self.pending.value_at(i);
            if p.app_id.len() > 0 && text::same_bytes(&p.app_id, app_id) {
                proof {
                    assert(has_id(self@.pending[i as int].1.app_id, app_id@));
                }
                return true;
            }
            i = i + 1;
        }
        false
    }

    /// Takes note of the application behind an observation.
    pub fn remember_known_app(&mut self, raw: &RawConn)
        ensures
            final(self)@ == old(self)@.acquainted(raw@),
            old(self)@.wf() ==> final(self)@.wf(),
    {
        if let Some((path, id)) = identify(raw) {
            let key: String = app_key(path.as_str());
            let app: KnownApp = KnownApp {
                app_path: path.clone(),
                app_name: app_name(path.as_str()),
                app_id: text::copy_bytes(id),
            };
            let _ = self.known_apps.insert(key, app);
        }
    }
}

} // verus!
