//! The list of quarantined programs, as the user sees it.

use vstd::prelude::*;
use vstd::string::*;

use crate::apps;
use crate::apps::to_lowercase;
use crate::book;
use crate::programs::{
    AppBlockModel, PendingModel, PendingProgram, Programs, ProgramsModel, RuntimeAppBlock,
};
use crate::rank;
use crate::rank::SortKey;
use crate::settings::{ProgramRule, RuleModel};
use crate::text;

verus! {

#[derive(Debug, PartialEq, Eq)]
pub struct AppQuarantine {
    pub app_path: String,
    pub app_name: String,
    pub protocol: String,
    /// "waiting", "session", "enforced" or "remembered".
    pub status: String,
    pub active: bool,
    pub temporary: bool,
}

#[verifier::ext_equal]
pub struct QuarantineModel {
    pub app_path: Seq<char>,
    pub app_name: Seq<char>,
    pub protocol: Seq<char>,
    pub status: Seq<char>,
    pub active: bool,
    pub temporary: bool,
}

impl View for AppQuarantine {
    type V = QuarantineModel;

    open spec fn view(&self) -> QuarantineModel {
        QuarantineModel {
            app_path: self.app_path@,
            app_name: self.app_name@,
            protocol: self.protocol@,
            status: self.status@,
            active: self.active,
            temporary: self.temporary,
        }
    }
}

impl Clone for AppQuarantine {
    fn clone(&self) -> (r: Self)
        ensures
            r@ == self@,
    {
        AppQuarantine {
            app_path: self.app_path.clone(),
            app_name: self.app_name.clone(),
            protocol: self.protocol.clone(),
            status: self.status.clone(),
            active: self.active,
            temporary: self.temporary,
        }
    }
}

/// A list of lines.
pub open spec fn lines_view(v: Seq<AppQuarantine>) -> Seq<QuarantineModel> {
    v.map_values(|l: AppQuarantine| l@)
}

/// The line of a remembered quarantine rule.
pub open spec fn rule_line(rule: RuleModel, active: bool) -> QuarantineModel {
    QuarantineModel {
        app_path: rule.app_path,
        app_name: rule.app_name,
        protocol: rule.protocol,
        status: if active {
            "enforced"@
        } else {
            "remembered"@
        },
        active,
        temporary: false,
    }
}

/// The line of a block.
pub open spec fn block_line(block: AppBlockModel) -> QuarantineModel {
    QuarantineModel {
        app_path: block.app_path,
        app_name: block.app_name,
        protocol: block.protocol,
        status: if block.temporary {
            "session"@
        } else {
            "enforced"@
        },
        active: true,
        temporary: block.temporary,
    }
}

/// The line of a program that waits for a decision.
pub open spec fn pending_line(pending: PendingModel) -> QuarantineModel {
    QuarantineModel {
        app_path: pending.prompt.app_path,
        app_name: pending.prompt.app_name,
        protocol: "all"@,
        status: "waiting"@,
        active: pending.temporary_handle is Some,
        temporary: true,
    }
}

/// Whether a remembered rule quarantines the program under a key.
pub open spec fn quarantined(rules: Seq<(Seq<char>, RuleModel)>, key: Seq<char>) -> bool {
    exists|i: int|
        0 <= i < rules.len() && (#[trigger] rules[i]).0 == key && rules[i].1.decision
            == "quarantine"@
}

impl ProgramsModel {
    /// The lines of the first `n` remembered rules.
    pub open spec fn rule_lines(self, n: int) -> Seq<QuarantineModel>
        decreases n,
    {
        if n <= 0 {
            Seq::empty()
        } else {
            let (key, rule) = self.saved.rules[n - 1];
            let front = self.rule_lines(n - 1);
            if rule.decision == "quarantine"@ {
                front.push(rule_line(rule, book::has_key(self.blocks, key)))
            } else {
                front
            }
        }
    }

    /// The lines of the first `n` blocks, without those that a remembered rule
    /// has already.
    pub open spec fn block_lines(self, n: int) -> Seq<QuarantineModel>
        decreases n,
    {
        if n <= 0 {
            Seq::empty()
        } else {
            let (key, block) = self.blocks[n - 1];
            let front = self.block_lines(n - 1);
            if quarantined(self.saved.rules, key) {
                front
            } else {
                front.push(block_line(block))
            }
        }
    }

    /// The lines of the first `n` pending programs, without those that have one
    /// already.
    pub open spec fn pending_lines(self, n: int) -> Seq<QuarantineModel>
        decreases n,
    {
        if n <= 0 {
            Seq::empty()
        } else {
            let (key, pending) = self.pending[n - 1];
            let front = self.pending_lines(n - 1);
            if quarantined(self.saved.rules, key) || book::has_key(self.blocks, key) {
                front
            } else {
                front.push(pending_line(pending))
            }
        }
    }

    /// All lines: every program that is quarantined, blocked or pending has one.
    pub open spec fn lines(self) -> Seq<QuarantineModel> {
        self.rule_lines(self.saved.rules.len() as int) + self.block_lines(self.blocks.len() as int)
            + self.pending_lines(self.pending.len() as int)
    }
}

/// Where a status stands: what waits for the user comes first.
pub open spec fn status_rank(status: Seq<char>) -> u8 {
    if status == "waiting"@ {
        0
    } else if status == "session"@ {
        1
    } else if status == "enforced"@ {
        2
    } else {
        3
    }
}

/// Whether a text comes before another, or is the same, by code points.
pub open spec fn text_le(a: Seq<char>, b: Seq<char>) -> bool
    decreases a.len(),
{
    if a.len() == 0 {
        true
    } else if b.len() == 0 {
        false
    } else if a[0] != b[0] {
        a[0] < b[0]
    } else {
        text_le(a.drop_first(), b.drop_first())
    }
}

/// Of two texts, one comes before the other, or they are the same.
pub proof fn lemma_text_le_total(a: Seq<char>, b: Seq<char>)
    ensures
        text_le(a, b) || text_le(b, a),
    decreases a.len(),
{
    if a.len() > 0 && b.len() > 0 && a[0] == b[0] {
        lemma_text_le_total(a.drop_first(), b.drop_first());
    }
}

proof fn lemma_text_le_transitive(a: Seq<char>, b: Seq<char>, c: Seq<char>)
    requires
        text_le(a, b),
        text_le(b, c),
    ensures
        text_le(a, c),
    decreases a.len(),
{
    if a.len() > 0 && b.len() > 0 && c.len() > 0 && a[0] == b[0] && b[0] == c[0] {
        lemma_text_le_transitive(a.drop_first(), b.drop_first(), c.drop_first());
    }
}

fn text_at_most(a: &Vec<char>, b: &Vec<char>) -> (r: bool)
    ensures
        r == text_le(a@, b@),
{
    let mut i: usize = 0;
    proof {
        assert(a@.skip(0) =~= a@);
        assert(b@.skip(0) =~= b@);
    }
    while i < a.len() && i < b.len()
        invariant
            i <= a@.len(),
            i <= b@.len(),
            text_le(a@, b@) == text_le(a@.skip(i as int), b@.skip(i as int)),
        decreases a@.len() - i,
    {
        if a[i] != b[i] {
            return a[i] < b[i];
        }
        proof {
            assert(a@.skip(i as int).drop_first() =~= a@.skip(i + 1));
            assert(b@.skip(i as int).drop_first() =~= b@.skip(i + 1));
        }
        i = i + 1;
    }
    i == a.len()
}

/// A line's place: by status, then by name.
pub struct LineKey {
    rank: u8,
    name: Vec<char>,
}

impl LineKey {
    pub closed spec fn place(self) -> (u8, Seq<char>) {
        (self.rank, self.name@)
    }
}

/// Whether a place comes before another, or is level with it.
pub open spec fn place_le(a: (u8, Seq<char>), b: (u8, Seq<char>)) -> bool {
    a.0 < b.0 || (a.0 == b.0 && text_le(a.1, b.1))
}

impl SortKey for LineKey {
    closed spec fn le(self, other: Self) -> bool {
        place_le(self.place(), other.place())
    }

    proof fn le_total(a: Self, b: Self) {
        lemma_text_le_total(a.name@, b.name@);
    }

    proof fn le_transitive(a: Self, b: Self, c: Self) {
        if a.rank == b.rank && b.rank == c.rank {
            lemma_text_le_transitive(a.name@, b.name@, c.name@);
        }
    }

    fn at_most(&self, other: &Self) -> (r: bool) {
        if self.rank != other.rank {
            self.rank < other.rank
        } else {
            text_at_most(&self.name, &other.name)
        }
    }
}

/// The place of a line whose name is shown in lower case as `name`.
pub open spec fn place_of(line: QuarantineModel, name: Seq<char>) -> (u8, Seq<char>) {
    (status_rank(line.status), name)
}

/// `order` lists all lines by their places; lines that are level stay in order.
pub open spec fn arranges(
    lines: Seq<QuarantineModel>,
    names: Seq<Seq<char>>,
    order: Seq<usize>,
) -> bool {
    &&& order.len() == lines.len()
    &&& order.no_duplicates()
    &&& forall|i: int| 0 <= i < order.len() ==> (#[trigger] order[i]) < lines.len()
    &&& forall|i: int, j: int|
        0 <= i < j < order.len() ==> ({
            let a = #[trigger] order[i] as int;
            let b = #[trigger] order[j] as int;
            if a < b {
                place_le(place_of(lines[a], names[a]), place_of(lines[b], names[b]))
            } else {
                !place_le(place_of(lines[b], names[b]), place_of(lines[a], names[a]))
            }
        })
}

/// `out` is the list of lines in the order of their places.
pub open spec fn arranged(
    lines: Seq<QuarantineModel>,
    names: Seq<Seq<char>>,
    out: Seq<QuarantineModel>,
) -> bool {
    exists|order: Seq<usize>| #[trigger]
        arranges(lines, names, order) && out == order.map_values(|i: usize| lines[i as int])
}

/// The names of lines in lower case.
pub open spec fn lower_names(lines: Seq<QuarantineModel>) -> Seq<Seq<char>> {
    lines.map_values(|l: QuarantineModel| apps::lowercase(l.app_name))
}

/// Texts.
pub open spec fn texts(v: Seq<String>) -> Seq<Seq<char>> {
    v.map_values(|s: String| s@)
}

fn rank_of(status: &str) -> (r: u8)
    ensures
        r == status_rank(status@),
{
    if text::same_text(status, "waiting") {
        0
    } else if text::same_text(status, "session") {
        1
    } else if text::same_text(status, "enforced") {
        2
    } else {
        3
    }
}

/// The lines in the order of their places: by status, then by the given names.
pub fn arrange(lines: &Vec<AppQuarantine>, names: &Vec<String>) -> (r: Vec<AppQuarantine>)
    requires
        lines@.len() == names@.len(),
    ensures
        arranged(lines_view(lines@), texts(names@), lines_view(r@)),
{
    let mut keys: Vec<LineKey> = Vec::new();
    let mut i: usize = 0;
    while i < lines.len()
        invariant
            i <= lines@.len(),
            lines@.len() == names@.len(),
            keys@.len() == i,
            forall|j: int|
                0 <= j < i ==> (#[trigger] keys@[j]).place() == place_of(lines@[j]@, names@[j]@),
        decreases lines@.len() - i,
    {
        keys.push(
            LineKey {
                rank: rank_of(lines[i].status.as_str()),
                name: text::chars_of(names[i].as_str()),
            },
        );
        i = i + 1;
    }
    let order: Vec<usize> = rank::ranking(&keys);
    proof {
        lemma_arranges(lines_view(lines@), texts(names@), keys@, order@);
    }
    let mut out: Vec<AppQuarantine> = Vec::new();
    let mut k: usize = 0;
    while k < order.len()
        invariant
            k <= order@.len(),
            forall|j: int| 0 <= j < order@.len() ==> (#[trigger] order@[j]) < lines@.len(),
            out@.len() == k,
            forall|j: int| 0 <= j < k ==> (#[trigger] out@[j])@ == lines@[order@[j] as int]@,
        decreases order@.len() - k,
    {
        out.push(lines[order[k]].clone());
        k = k + 1;
    }
    proof {
        let l = lines_view(lines@);
        assert(lines_view(out@) =~= order@.map_values(|i: usize| l[i as int]));
    }
    out
}

proof fn lemma_arranges(
    lines: Seq<QuarantineModel>,
    names: Seq<Seq<char>>,
    keys: Seq<LineKey>,
    order: Seq<usize>,
)
    requires
        lines.len() == names.len() == keys.len(),
        forall|j: int|
            0 <= j < keys.len() ==> (#[trigger] keys[j]).place() == place_of(lines[j], names[j]),
        rank::is_ranking(keys, order),
    ensures
        arranges(lines, names, order),
{
    assert forall|i: int, j: int| 0 <= i < j < order.len() implies ({
        let a = #[trigger] order[i] as int;
        let b = #[trigger] order[j] as int;
        if a < b {
            place_le(place_of(lines[a], names[a]), place_of(lines[b], names[b]))
        } else {
            !place_le(place_of(lines[b], names[b]), place_of(lines[a], names[a]))
        }
    }) by {
        let a = order[i] as int;
        let b = order[j] as int;
        assert(rank::precedes(keys, a, b));
        assert(keys[a].place() == place_of(lines[a], names[a]));
        assert(keys[b].place() == place_of(lines[b], names[b]));
    }
}

impl Programs {
    fn rule_quarantines(&self, key: &str) -> (r: bool)
        ensures
            r == quarantined(self@.saved.rules, key@),
    {
        let mut i: usize = 0;
        while i < self.saved.rules.len()
            invariant
                i <= self@.saved.rules.len(),
                forall|j: int|
                    0 <= j < i ==> !((#[trigger] self@.saved.rules[j]).0 == key@
                        && self@.saved.rules[j].1.decision == "quarantine"@),
            decreases self@.saved.rules.len() - i,
        {
            let rule: &ProgramRule = self.saved.rules.value_at(i);
            if text::same_text(self.saved.rules.key_at(i), key) && text::same_text(
                rule.decision.as_str(),
                "quarantine",
            ) {
                proof {
                    assert(self@.saved.rules[i as int].0 == key@);
                }
                return true;
            }
            i = i + 1;
        }
        false
    }

    fn push_rule_lines(&self, out: &mut Vec<AppQuarantine>)
        ensures
            lines_view(final(out)@) == lines_view(old(out)@) + self@.rule_lines(
                self@.saved.rules.len() as int,
            ),
    {
        let ghost before = lines_view(out@);
        let mut i: usize = 0;
        proof {
            assert(before + self@.rule_lines(0) =~= before);
        }
        while i < self.saved.rules.len()
            invariant
                i <= self@.saved.rules.len(),
                lines_view(out@) == before + self@.rule_lines(i as int),
            decreases self@.saved.rules.len() - i,
        {
            let rule: &ProgramRule = self.saved.rules.value_at(i);
            if text::same_text(rule.decision.as_str(), "quarantine") {
                let active: bool = self.app_blocks.contains_key(self.saved.rules.key_at(i));
                let line: AppQuarantine = AppQuarantine {
                    app_path: rule.app_path.clone(),
                    app_name: rule.app_name.clone(),
                    protocol: rule.protocol.clone(),
                    status: if active {
                        "enforced".to_owned()
                    } else {
                        "remembered".to_owned()
                    },
                    active,
                    temporary: false,
                };
                proof {
                    let front = self@.rule_lines(i as int);
                    assert(line@ =~= rule_line(rule@, active));
                    assert(lines_view(out@.push(line)) =~= lines_view(out@).push(line@));
                    assert(self@.rule_lines(i + 1) == front.push(line@));
                    assert((before + front).push(line@) =~= before + front.push(line@));
                }
                out.push(line);
            }
            i = i + 1;
        }
    }

    fn push_block_lines(&self, out: &mut Vec<AppQuarantine>)
        ensures
            lines_view(final(out)@) == lines_view(old(out)@) + self@.block_lines(
                self@.blocks.len() as int,
            ),
    {
        let ghost before = lines_view(out@);
        let mut i: usize = 0;
        proof {
            assert(before + self@.block_lines(0) =~= before);
        }
        while i < self.app_blocks.len()
            invariant
                i <= self@.blocks.len(),
                lines_view(out@) == before + self@.block_lines(i as int),
            decreases self@.blocks.len() - i,
        {
            if !self.rule_quarantines(self.app_blocks.key_at(i)) {
                let block: &RuntimeAppBlock = self.app_blocks.value_at(i);
                let line: AppQuarantine = AppQuarantine {
                    app_path: block.app_path.clone(),
                    app_name: block.app_name.clone(),
                    protocol: block.protocol.clone(),
                    status: if block.temporary {
                        "session".to_owned()
                    } else {
                        "enforced".to_owned()
                    },
                    active: true,
                    temporary: block.temporary,
                };
                proof {
                    let front = self@.block_lines(i as int);
                    assert(line@ =~= block_line(block@));
                    assert(lines_view(out@.push(line)) =~= lines_view(out@).push(line@));
                    assert(self@.block_lines(i + 1) == front.push(line@));
                    assert((before + front).push(line@) =~= before + front.push(line@));
                }
                out.push(line);
            }
            i = i + 1;
        }
    }

    fn push_pending_lines(&self, out: &mut Vec<AppQuarantine>)
        ensures
            lines_view(final(out)@) == lines_view(old(out)@) + self@.pending_lines(
                self@.pending.len() as int,
            ),
    {
        let ghost before = lines_view(out@);
        let mut i: usize = 0;
        proof {
            assert(before + self@.pending_lines(0) =~= before);
        }
        while i < self.pending.len()
            invariant
                i <= self@.pending.len(),
                lines_view(out@) == before + self@.pending_lines(i as int),
            decreases self@.pending.len() - i,
        {
            let key: &str = self.pending.key_at(i);
            if !self.rule_quarantines(key) && !self.app_blocks.contains_key(key) {
                let pending: &PendingProgram = self.pending.value_at(i);
                let line: AppQuarantine = AppQuarantine {
                    app_path: pending.prompt.app_path.clone(),
                    app_name: pending.prompt.app_name.clone(),
                    protocol: "all".to_owned(),
                    status: "waiting".to_owned(),
                    active: pending.temporary_handle.is_some(),
                    temporary: true,
                };
                proof {
                    let front = self@.pending_lines(i as int);
                    assert(line@ =~= pending_line(pending@));
                    assert(lines_view(out@.push(line)) =~= lines_view(out@).push(line@));
                    assert(self@.pending_lines(i + 1) == front.push(line@));
                    assert((before + front).push(line@) =~= before + front.push(line@));
                }
                out.push(line);
            }
            i = i + 1;
        }
    }

    /// All lines, before they are put in order.
    pub fn quarantine_lines(&self) -> (r: Vec<AppQuarantine>)
        ensures
            lines_view(r@) == self@.lines(),
    {
        let mut out: Vec<AppQuarantine> = Vec::new();
        proof {
            assert(lines_view(out@) =~= Seq::empty());
        }
        self.push_rule_lines(&mut out);
        self.push_block_lines(&mut out);
        self.push_pending_lines(&mut out);
        proof {
            assert(lines_view(out@) =~= self@.lines());
        }
        out
    }

    /// The quarantined programs: what waits for the user first, then by status,
    /// then by name without regard to case.
    pub fn quarantine_snapshot(&self) -> (r: Vec<AppQuarantine>)
        ensures
            arranged(self@.lines(), lower_names(self@.lines()), lines_view(r@)),
    {
        let lines: Vec<AppQuarantine> = self.quarantine_lines();
        let mut names: Vec<String> = Vec::new();
        let mut i: usize = 0;
        while i < lines.len()
            invariant
                i <= lines@.len(),
                names@.len() == i,
                forall|j: int|
                    0 <= j < i ==> (#[trigger] names@[j])@ == apps::lowercase(lines@[j].app_name@),
            decreases lines@.len() - i,
        {
            names.push(to_lowercase(lines[i].app_name.as_str()));
            i = i + 1;
        }
        proof {
            assert(texts(names@) =~= lower_names(self@.lines())) by {
                assert forall|j: int| 0 <= j < names@.len() implies texts(names@)[j] == lower_names(
                    self@.lines(),
                )[j] by {
                    assert(self@.lines()[j] == lines@[j]@);
                }
            }
        }
        arrange(&lines, &names)
    }
}

/// Every pending program that has no other line is shown as waiting.
pub proof fn pending_program_is_shown(m: ProgramsModel, i: int)
    requires
        0 <= i < m.pending.len(),
        !quarantined(m.saved.rules, m.pending[i].0),
        !book::has_key(m.blocks, m.pending[i].0),
    ensures
        m.lines().contains(pending_line(m.pending[i].1)),
{
    let n = m.pending.len() as int;
    lemma_pending_line(m, i, n);
    let k = choose|k: int|
        0 <= k < m.pending_lines(n).len() && m.pending_lines(n)[k] == pending_line(m.pending[i].1);
    let base = m.rule_lines(m.saved.rules.len() as int).len() + m.block_lines(
        m.blocks.len() as int,
    ).len();
    assert(m.lines()[base + k] == m.pending_lines(n)[k]);
}

proof fn lemma_pending_line(m: ProgramsModel, i: int, n: int)
    requires
        0 <= i < n <= m.pending.len(),
        !quarantined(m.saved.rules, m.pending[i].0),
        !book::has_key(m.blocks, m.pending[i].0),
    ensures
        m.pending_lines(n).contains(pending_line(m.pending[i].1)),
    decreases n,
{
    let all = m.pending_lines(n);
    if i == n - 1 {
        assert(all[all.len() - 1] == pending_line(m.pending[i].1));
    } else {
        lemma_pending_line(m, i, n - 1);
        let front = m.pending_lines(n - 1);
        let k = choose|k: int| 0 <= k < front.len() && front[k] == pending_line(m.pending[i].1);
        assert(all[k] == front[k]);
    }
}

/// Every remembered quarantine is shown: as enforced where the program is
/// blocked, and as remembered where it is not.
pub proof fn remembered_quarantine_is_shown(m: ProgramsModel, i: int)
    requires
        0 <= i < m.saved.rules.len(),
        m.saved.rules[i].1.decision == "quarantine"@,
    ensures
        m.lines().contains(
            rule_line(m.saved.rules[i].1, book::has_key(m.blocks, m.saved.rules[i].0)),
        ),
{
    let n = m.saved.rules.len() as int;
    let line = rule_line(m.saved.rules[i].1, book::has_key(m.blocks, m.saved.rules[i].0));
    lemma_rule_line(m, i, n);
    let k = choose|k: int| 0 <= k < m.rule_lines(n).len() && m.rule_lines(n)[k] == line;
    assert(m.lines()[k] == line);
}

proof fn lemma_rule_line(m: ProgramsModel, i: int, n: int)
    requires
        0 <= i < n <= m.saved.rules.len(),
        m.saved.rules[i].1.decision == "quarantine"@,
    ensures
        m.rule_lines(n).contains(
            rule_line(m.saved.rules[i].1, book::has_key(m.blocks, m.saved.rules[i].0)),
        ),
    decreases n,
{
    let line = rule_line(m.saved.rules[i].1, book::has_key(m.blocks, m.saved.rules[i].0));
    let all = m.rule_lines(n);
    if i == n - 1 {
        assert(all[all.len() - 1] == line);
    } else {
        lemma_rule_line(m, i, n - 1);
        let front = m.rule_lines(n - 1);
        let k = choose|k: int| 0 <= k < front.len() && front[k] == line;
        assert(all[k] == front[k]);
    }
}

/// In the list, statuses only ever move on: nothing that waits for the user
/// stands behind something that does not.
pub proof fn waiting_comes_first(
    lines: Seq<QuarantineModel>,
    names: Seq<Seq<char>>,
    out: Seq<QuarantineModel>,
    i: int,
    j: int,
)
    requires
        arranged(lines, names, out),
        0 <= i < j < out.len(),
    ensures
        status_rank(out[i].status) <= status_rank(out[j].status),
{
    let order = choose|order: Seq<usize>| #[trigger]
        arranges(lines, names, order) && out == order.map_values(|i: usize| lines[i as int]);
    assert(out[i] == lines[order[i] as int]);
    assert(out[j] == lines[order[j] as int]);
}

} // verus!
