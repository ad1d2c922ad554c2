//! What the user is shown of connections and of quarantined programs.

use vstd::prelude::*;
use vstd::string::*;

use crate::active_connections;
use crate::active_connections::{ActiveConnection, ConnectionModel};
use crate::apps;
use crate::book;
use crate::detect::{BlockReason, Verdict};
use crate::event::{Action, Direction, NetEvent, Proto};
use crate::feed;
use crate::feed::{
    active_to_raw, connection_seen, distinct_connections, inspects_snapshot, protocol_str,
    raw_to_event, snapshot_seen, ConnectionSeen,
};
use crate::ip::IpAddr;
use crate::laws::words;
use crate::programs::quarantine;
use crate::programs::quarantine::{AppQuarantine, QuarantineModel};
use crate::programs::{
    AppBlockModel, PendingModel, ProgramPrompt, Programs, ProgramsModel,
};
use crate::roundtrip;
use crate::settings::RuleModel;
use crate::text;
use crate::wfp::{Firewall, RawConn};

verus! {

/// A connection is shown as it was seen, with the verdict on it.
pub proof fn connection_is_shown_as_seen(raw: RawConn, verdict: Verdict, r: ConnectionSeen)
    requires
        call_ensures(connection_seen, (&raw, &verdict), r),
    ensures
        r.ts_ms == raw.ts_ms,
        r.pid == raw.pid,
        r.remote_ip@ == raw.remote_ip.text(),
        r.remote_port == raw.remote_port,
        r.local_port == raw.local_port,
        r.is_new_conn == raw.is_new,
        r.direction@ == (if raw.inbound {
            "inbound"@
        } else {
            "outbound"@
        }),
        r.protocol@ == (if raw.udp {
            "udp"@
        } else {
            "tcp"@
        }),
        r.verdict@ == (if verdict is Block {
            "block"@
        } else {
            "allow"@
        }),
        text::text_option(r.reason) == (match verdict {
            Verdict::Pass => None,
            Verdict::Block { reason: BlockReason::RateLimit, .. } => Some("RateLimit"@),
            Verdict::Block { reason: BlockReason::PortScan, .. } => Some("PortScan"@),
            Verdict::Block { reason: BlockReason::Manual, .. } => Some("Manual"@),
            Verdict::Block { reason: BlockReason::Blocklist, .. } => Some("Blocklist"@),
        }),
        text::text_option(r.app_path) == text::text_option(raw.app_path),
        r.app_name@ == (match raw.app_path {
            Some(path) => apps::name_of(path@),
            None => "pid "@ + text::decimal(raw.pid as nat),
        }),
        r.id@ == text::decimal(raw.ts_ms as nat) + seq!['-'] + text::decimal(raw.pid as nat)
            + seq!['-'] + raw.remote_ip.text() + seq!['-'] + text::decimal(raw.remote_port as nat),
{
}

/// The user is asked about a connection in the words in which it is shown.
pub proof fn question_agrees_with_the_feed<F: Firewall>(
    p: &mut Programs,
    fw: &mut F,
    raw: RawConn,
    asked: Option<ProgramPrompt>,
    verdict: Verdict,
    seen: ConnectionSeen,
)
    requires
        old(p)@.wf(),
        call_ensures(Programs::inspect_program::<F>, (p, fw, &raw), asked),
        call_ensures(connection_seen, (&raw, &verdict), seen),
    ensures
        asked matches Some(q) ==> {
            &&& q.protocol@ == seen.protocol@
            &&& q.direction@ == seen.direction@
            &&& q.remote_ip@ == seen.remote_ip@
            &&& q.remote_port == seen.remote_port
            &&& q.local_port == seen.local_port
            &&& q.app_name@ == seen.app_name@
            &&& text::text_option(seen.app_path) == Some(q.app_path@)
        },
{
    if asked is Some {
        crate::laws::control::prompt_describes_the_connection::<F>(p, fw, raw, asked);
    }
}

/// The protocol of an observation is "udp" exactly if it is UDP.
pub proof fn protocol_is_named(raw: RawConn, r: &'static str)
    requires
        call_ensures(protocol_str, (&raw,), r),
    ensures
        r@ == (if raw.udp {
            "udp"@
        } else {
            "tcp"@
        }),
        r@ == "udp"@ <==> raw.udp,
{
    words::protocols_differ();
}

/// The engine judges what was seen.
pub proof fn event_is_what_was_seen(raw: RawConn, ev: NetEvent)
    requires
        call_ensures(raw_to_event, (&raw,), ev),
    ensures
        ev.ts_ms == raw.ts_ms,
        ev.direction == Direction::Inbound <==> raw.inbound,
        ev.proto == Proto::Udp <==> raw.udp,
        ev.remote_ip == raw.remote_ip,
        ev.remote_port == raw.remote_port,
        ev.local_port == raw.local_port,
        ev.local_ip matches IpAddr::V4(a) && a.bits == 0,
        ev.pid == raw.pid,
        text::text_option(ev.app_path) == text::text_option(raw.app_path),
        ev.service_sid is None,
        ev.is_new_conn == raw.is_new,
        ev.action == Action::Allow,
{
}

/// An active connection counts as a new outbound observation of the same
/// addresses, ports and process, and is shown with them. It is inspected only
/// where it is TCP and has a remote side.
pub proof fn active_connection_is_observed_as_listed(
    conn: ActiveConnection,
    app_id: Option<Vec<u8>>,
    ts_ms: u64,
    raw: RawConn,
    seen: ConnectionSeen,
    inspected: bool,
)
    requires
        call_ensures(active_to_raw, (&conn, app_id, ts_ms), raw),
        call_ensures(snapshot_seen, (&conn, ts_ms), seen),
        call_ensures(inspects_snapshot, (&raw,), inspected),
    ensures
        raw.ts_ms == ts_ms,
        !raw.inbound,
        raw.is_new,
        raw.udp <==> conn.protocol@ == "udp"@,
        raw.remote_ip == conn.remote_ip,
        raw.remote_port == conn.remote_port,
        raw.local_port == conn.local_port,
        raw.pid == conn.pid,
        text::text_option(raw.app_path) == text::text_option(conn.app_path),
        text::bytes_option(raw.app_id) == text::bytes_option(app_id),
        seen.ts_ms == ts_ms,
        seen.direction@ == "outbound"@,
        seen.protocol@ == conn.protocol@,
        seen.remote_ip@ == conn.remote_ip.text(),
        seen.remote_port == conn.remote_port,
        seen.local_port == conn.local_port,
        seen.pid == conn.pid,
        text::text_option(seen.app_path) == text::text_option(conn.app_path),
        seen.app_name@ == conn.app_name@,
        seen.verdict@ == "allow"@,
        seen.reason matches Some(t) && t@ == "active-snapshot"@,
        !seen.is_new_conn,
        seen.id@ == "snapshot-"@ + conn.protocol@ + seq!['-'] + text::decimal(conn.pid as nat)
            + seq!['-'] + text::decimal(conn.local_port as nat) + seq!['-'] + conn.remote_ip.text()
            + seq!['-'] + text::decimal(conn.remote_port as nat),
        inspected <==> conn.protocol@ != "udp"@ && match conn.remote_ip {
            IpAddr::V4(a) => a.bits != 0,
            IpAddr::V6(a) => a.bits != 0,
        },
{
    assert(seen.id@ =~= "snapshot-"@ + conn.protocol@ + seq!['-'] + text::decimal(conn.pid as nat)
        + seq!['-'] + text::decimal(conn.local_port as nat) + seq!['-'] + conn.remote_ip.text()
        + seq!['-'] + text::decimal(conn.remote_port as nat));
}

/// The same connection: same protocol, process, addresses and ports.
pub open spec fn same_connection(a: ConnectionModel, b: ConnectionModel) -> bool {
    &&& a.protocol == b.protocol
    &&& a.pid == b.pid
    &&& a.local_port == b.local_port
    &&& a.remote_ip == b.remote_ip
    &&& a.remote_port == b.remote_port
}

/// A protocol text without a colon in it, as "tcp" and "udp" are.
pub open spec fn plain_protocol(c: ConnectionModel) -> bool {
    forall|i: int| 0 <= i < c.protocol.len() ==> #[trigger] c.protocol[i] != ':'
}

spec fn without(s: Seq<char>, c: char) -> bool {
    forall|i: int| 0 <= i < s.len() ==> #[trigger] s[i] != c
}

/// A text up to the first separator determines its parts.
proof fn lemma_front_part(a: Seq<char>, x: Seq<char>, b: Seq<char>, y: Seq<char>, c: char)
    requires
        a + seq![c] + x == b + seq![c] + y,
        without(a, c),
        without(b, c),
    ensures
        a == b,
        x == y,
{
    let s = a + seq![c] + x;
    let t = b + seq![c] + y;
    assert(s[a.len() as int] == c);
    assert(t[b.len() as int] == c);
    if a.len() < b.len() {
        assert(t[a.len() as int] == b[a.len() as int]);
    }
    if b.len() < a.len() {
        assert(s[b.len() as int] == a[b.len() as int]);
    }
    assert(a =~= s.take(a.len() as int));
    assert(b =~= t.take(b.len() as int));
    assert(x =~= s.skip(a.len() as int + 1));
    assert(y =~= t.skip(b.len() as int + 1));
}

/// A text after the last separator determines its parts.
proof fn lemma_back_part(a: Seq<char>, x: Seq<char>, b: Seq<char>, y: Seq<char>, c: char)
    requires
        a + seq![c] + x == b + seq![c] + y,
        without(x, c),
        without(y, c),
    ensures
        a == b,
        x == y,
{
    let s = a + seq![c] + x;
    let t = b + seq![c] + y;
    assert(s[a.len() as int] == c);
    assert(t[b.len() as int] == c);
    assert(s == t && s.len() == a.len() + 1 + x.len() && t.len() == b.len() + 1 + y.len());
    if a.len() < b.len() {
        assert(s[b.len() as int] == x[b.len() - a.len() - 1]);
    }
    if b.len() < a.len() {
        assert(t[a.len() as int] == y[a.len() - b.len() - 1]);
    }
    assert(a =~= s.take(a.len() as int));
    assert(b =~= t.take(b.len() as int));
    assert(x =~= s.skip(a.len() as int + 1));
    assert(y =~= t.skip(b.len() as int + 1));
}

proof fn lemma_key_tells(a: ConnectionModel, b: ConnectionModel)
    requires
        plain_protocol(a),
        plain_protocol(b),
    ensures
        feed::connection_key(a, ':') == feed::connection_key(b, ':') <==> same_connection(a, b),
{
    if feed::connection_key(a, ':') == feed::connection_key(b, ':') {
        let c = seq![':'];
        let (a1, b1) = (text::decimal(a.pid as nat), text::decimal(b.pid as nat));
        let (a2, b2) = (text::decimal(a.local_port as nat), text::decimal(b.local_port as nat));
        let (a3, b3) = (a.remote_ip.text(), b.remote_ip.text());
        let (a4, b4) = (text::decimal(a.remote_port as nat), text::decimal(b.remote_port as nat));
        roundtrip::decimals_are_plain(a.pid as nat, b.pid as nat);
        roundtrip::decimals_are_plain(a.local_port as nat, b.local_port as nat);
        roundtrip::decimals_are_plain(a.remote_port as nat, b.remote_port as nat);
        let (x1, y1) = (a1 + c + (a2 + c + (a3 + c + a4)), b1 + c + (b2 + c + (b3 + c + b4)));
        let (x2, y2) = (a2 + c + (a3 + c + a4), b2 + c + (b3 + c + b4));
        let (x3, y3) = (a3 + c + a4, b3 + c + b4);
        assert(feed::connection_key(a, ':') =~= a.protocol + c + x1);
        assert(feed::connection_key(b, ':') =~= b.protocol + c + y1);
        lemma_front_part(a.protocol, x1, b.protocol, y1, ':');
        lemma_front_part(a1, x2, b1, y2, ':');
        lemma_front_part(a2, x3, b2, y3, ':');
        lemma_back_part(a3, a4, b3, b4, ':');
        roundtrip::address_text_is_unique(a.remote_ip, b.remote_ip);
    }
}

/// Whether a connection stands earlier in the list.
pub open spec fn stands_before(conns: Seq<ConnectionModel>, i: int) -> bool {
    exists|j: int| 0 <= j < i && same_connection(#[trigger] conns[j], conns[i])
}

/// `places` are the places, in order, of the connections that do not stand
/// earlier among the first `n`.
pub open spec fn first_places(conns: Seq<ConnectionModel>, n: int, places: Seq<int>) -> bool {
    &&& forall|k: int| 0 <= k < places.len() ==> 0 <= #[trigger] places[k] < n
    &&& forall|k: int, l: int|
        0 <= k < l < places.len() ==> #[trigger] places[k] < #[trigger] places[l]
    &&& forall|i: int| 0 <= i < n ==> (#[trigger] places.contains(i) <==> !stands_before(conns, i))
}

proof fn lemma_firsts(conns: Seq<ConnectionModel>, n: int) -> (places: Seq<int>)
    requires
        0 <= n <= conns.len(),
        forall|i: int| 0 <= i < conns.len() ==> plain_protocol(#[trigger] conns[i]),
    ensures
        first_places(conns, n, places),
        feed::firsts(conns, n) == places.map_values(|i: int| conns[i]),
    decreases n,
{
    if n == 0 {
        let places = Seq::<int>::empty();
        assert(feed::firsts(conns, n) =~= places.map_values(|i: int| conns[i]));
        places
    } else {
        let front = lemma_firsts(conns, n - 1);
        assert(feed::repeats(conns, n - 1) <==> stands_before(conns, n - 1)) by {
            assert forall|j: int| 0 <= j < n - 1 implies (feed::connection_key(
                #[trigger] conns[j],
                ':',
            ) == feed::connection_key(conns[n - 1], ':') <==> same_connection(
                conns[j],
                conns[n - 1],
            )) by {
                lemma_key_tells(conns[j], conns[n - 1]);
            }
        }
        if stands_before(conns, n - 1) {
            assert forall|i: int| 0 <= i < n implies (#[trigger] front.contains(i)
                <==> !stands_before(conns, i)) by {
                if i == n - 1 && front.contains(i) {
                    let k = choose|k: int| 0 <= k < front.len() && front[k] == i;
                    assert(front[k] < n - 1);
                }
            }
            front
        } else {
            let places = front.push(n - 1);
            assert(places.map_values(|i: int| conns[i]) =~= front.map_values(
                |i: int| conns[i],
            ).push(conns[n - 1]));
            assert forall|i: int| 0 <= i < n implies (#[trigger] places.contains(i)
                <==> !stands_before(conns, i)) by {
                if i == n - 1 {
                    assert(places[front.len() as int] == i);
                } else {
                    if front.contains(i) {
                        let k = choose|k: int| 0 <= k < front.len() && front[k] == i;
                        assert(places[k] == i);
                    }
                    if places.contains(i) {
                        let k = choose|k: int| 0 <= k < places.len() && places[k] == i;
                        assert(front[k] == i);
                    }
                }
            }
            places
        }
    }
}

/// Every connection is listed once: a connection is left out exactly if the same
/// one stands earlier, and the others keep their order.
pub proof fn connections_are_listed_once(conns: Vec<ActiveConnection>, r: Vec<ActiveConnection>)
    requires
        call_ensures(distinct_connections, (&conns,), r),
        forall|i: int| 0 <= i < conns@.len() ==> plain_protocol((#[trigger] conns@[i])@),
    ensures
        exists|places: Seq<int>| #[trigger]
            first_places(
                active_connections::connections_view(conns@),
                conns@.len() as int,
                places,
            ) && r@.len() == places.len() && forall|k: int|
                0 <= k < r@.len() ==> (#[trigger] r@[k])@ == conns@[places[k]]@,
{
    let all = active_connections::connections_view(conns@);
    let out = active_connections::connections_view(r@);
    assert forall|i: int| 0 <= i < all.len() implies plain_protocol(#[trigger] all[i]) by {
        assert(all[i] == conns@[i]@);
    }
    let places = lemma_firsts(all, conns@.len() as int);
    assert(out.len() == r@.len());
    assert forall|k: int| 0 <= k < r@.len() implies (#[trigger] r@[k])@ == conns@[places[k]]@ by {
        assert(out[k] == r@[k]@);
        assert(0 <= places[k] < conns@.len());
        assert(all[places[k]] == conns@[places[k]]@);
    }
}

/// Rules that quarantine.
pub open spec fn quarantine_rules() -> spec_fn((Seq<char>, RuleModel)) -> bool {
    |e: (Seq<char>, RuleModel)| e.1.decision == "quarantine"@
}

/// Whether a remembered rule quarantines the program under a key.
pub open spec fn kept_in_quarantine(m: ProgramsModel, key: Seq<char>) -> bool {
    exists|i: int|
        0 <= i < m.saved.rules.len() && #[trigger] m.saved.rules[i].0 == key
            && m.saved.rules[i].1.decision == "quarantine"@
}

/// The line of a remembered quarantine says whether the program is blocked now.
pub open spec fn remembered_line(m: ProgramsModel) -> spec_fn(
    (Seq<char>, RuleModel),
) -> QuarantineModel {
    |e: (Seq<char>, RuleModel)|
        QuarantineModel {
            app_path: e.1.app_path,
            app_name: e.1.app_name,
            protocol: e.1.protocol,
            status: if book::has_key(m.blocks, e.0) {
                "enforced"@
            } else {
                "remembered"@
            },
            active: book::has_key(m.blocks, e.0),
            temporary: false,
        }
}

/// The line of a block without such a rule says whether it ends with the session.
pub open spec fn blocked_line() -> spec_fn((Seq<char>, AppBlockModel)) -> QuarantineModel {
    |e: (Seq<char>, AppBlockModel)|
        QuarantineModel {
            app_path: e.1.app_path,
            app_name: e.1.app_name,
            protocol: e.1.protocol,
            status: if e.1.temporary {
                "session"@
            } else {
                "enforced"@
            },
            active: true,
            temporary: e.1.temporary,
        }
}

/// The line of a program that waits for a decision says whether it is blocked
/// meanwhile.
pub open spec fn waiting_line() -> spec_fn((Seq<char>, PendingModel)) -> QuarantineModel {
    |e: (Seq<char>, PendingModel)|
        QuarantineModel {
            app_path: e.1.prompt.app_path,
            app_name: e.1.prompt.app_name,
            protocol: "all"@,
            status: "waiting"@,
            active: e.1.temporary_handle is Some,
            temporary: true,
        }
}

/// All lines: one for each remembered quarantine, one for each block of a
/// program that is not among them, and one for each program that waits and is
/// not among either.
pub open spec fn all_lines(m: ProgramsModel) -> Seq<QuarantineModel> {
    m.saved.rules.filter(quarantine_rules()).map_values(remembered_line(m)) + m.blocks.filter(
        |e: (Seq<char>, AppBlockModel)| !kept_in_quarantine(m, e.0),
    ).map_values(blocked_line()) + m.pending.filter(
        |e: (Seq<char>, PendingModel)|
            !kept_in_quarantine(m, e.0) && !book::has_key(m.blocks, e.0),
    ).map_values(waiting_line())
}

proof fn lemma_filter_step<A>(s: Seq<A>, n: int, p: spec_fn(A) -> bool)
    requires
        0 < n <= s.len(),
    ensures
        s.take(n).filter(p) == if p(s[n - 1]) {
            s.take(n - 1).filter(p).push(s[n - 1])
        } else {
            s.take(n - 1).filter(p)
        },
{
    reveal(Seq::filter);
    assert(s.take(n).drop_last() =~= s.take(n - 1));
}

proof fn lemma_rule_lines(m: ProgramsModel, n: int)
    requires
        0 <= n <= m.saved.rules.len(),
    ensures
        m.rule_lines(n) == m.saved.rules.take(n).filter(quarantine_rules()).map_values(
            remembered_line(m),
        ),
    decreases n,
{
    let s = m.saved.rules;
    let p = quarantine_rules();
    let f = remembered_line(m);
    if n == 0 {
        reveal(Seq::filter);
        assert(m.rule_lines(n) =~= s.take(n).filter(p).map_values(f));
    } else {
        lemma_rule_lines(m, n - 1);
        lemma_filter_step(s, n, p);
        let t = s.take(n - 1).filter(p);
        assert(t.push(s[n - 1]).map_values(f) =~= t.map_values(f).push(f(s[n - 1])));
        assert(f(s[n - 1]) =~= quarantine::rule_line(
            s[n - 1].1,
            book::has_key(m.blocks, s[n - 1].0),
        ));
    }
}

proof fn lemma_block_lines(m: ProgramsModel, n: int)
    requires
        0 <= n <= m.blocks.len(),
    ensures
        m.block_lines(n) == m.blocks.take(n).filter(
            |e: (Seq<char>, AppBlockModel)| !kept_in_quarantine(m, e.0),
        ).map_values(blocked_line()),
    decreases n,
{
    let s = m.blocks;
    let p = |e: (Seq<char>, AppBlockModel)| !kept_in_quarantine(m, e.0);
    let f = blocked_line();
    if n == 0 {
        reveal(Seq::filter);
        assert(m.block_lines(n) =~= s.take(n).filter(p).map_values(f));
    } else {
        lemma_block_lines(m, n - 1);
        lemma_filter_step(s, n, p);
        let t = s.take(n - 1).filter(p);
        assert(quarantine::quarantined(m.saved.rules, s[n - 1].0) == kept_in_quarantine(
            m,
            s[n - 1].0,
        ));
        assert(t.push(s[n - 1]).map_values(f) =~= t.map_values(f).push(f(s[n - 1])));
        assert(f(s[n - 1]) =~= quarantine::block_line(s[n - 1].1));
    }
}

proof fn lemma_pending_lines(m: ProgramsModel, n: int)
    requires
        0 <= n <= m.pending.len(),
    ensures
        m.pending_lines(n) == m.pending.take(n).filter(
            |e: (Seq<char>, PendingModel)|
                !kept_in_quarantine(m, e.0) && !book::has_key(m.blocks, e.0),
        ).map_values(waiting_line()),
    decreases n,
{
    let s = m.pending;
    let p = |e: (Seq<char>, PendingModel)|
        !kept_in_quarantine(m, e.0) && !book::has_key(m.blocks, e.0);
    let f = waiting_line();
    if n == 0 {
        reveal(Seq::filter);
        assert(m.pending_lines(n) =~= s.take(n).filter(p).map_values(f));
    } else {
        lemma_pending_lines(m, n - 1);
        lemma_filter_step(s, n, p);
        let t = s.take(n - 1).filter(p);
        assert(quarantine::quarantined(m.saved.rules, s[n - 1].0) == kept_in_quarantine(
            m,
            s[n - 1].0,
        ));
        assert(t.push(s[n - 1]).map_values(f) =~= t.map_values(f).push(f(s[n - 1])));
        assert(f(s[n - 1]) =~= quarantine::pending_line(s[n - 1].1));
    }
}

proof fn lemma_lines(m: ProgramsModel)
    ensures
        m.lines() == all_lines(m),
{
    lemma_rule_lines(m, m.saved.rules.len() as int);
    lemma_block_lines(m, m.blocks.len() as int);
    lemma_pending_lines(m, m.pending.len() as int);
    assert(m.saved.rules.take(m.saved.rules.len() as int) =~= m.saved.rules);
    assert(m.blocks.take(m.blocks.len() as int) =~= m.blocks);
    assert(m.pending.take(m.pending.len() as int) =~= m.pending);
}

/// The list of quarantined programs leaves none out and shows none twice.
pub proof fn quarantined_programs_are_listed(p: Programs, r: Vec<AppQuarantine>)
    requires
        call_ensures(Programs::quarantine_lines, (&p,), r),
    ensures
        r@.map_values(|l: AppQuarantine| l@) == all_lines(p@),
{
    lemma_lines(p@);
    assert(r@.map_values(|l: AppQuarantine| l@) =~= quarantine::lines_view(r@));
}

/// Where a status stands in the list.
pub open spec fn stage(status: Seq<char>) -> int {
    if status == "waiting"@ {
        0
    } else if status == "session"@ {
        1
    } else if status == "enforced"@ {
        2
    } else {
        3
    }
}

/// By code points: up to where the texts differ they are the same, and there the
/// first one ends or has the smaller character.
pub open spec fn no_later(a: Seq<char>, b: Seq<char>) -> bool {
    exists|n: int| #[trigger]
        a.take(n) == b.take(n) && 0 <= n <= a.len() && n <= b.len() && (n == a.len() || (n < b.len()
            && a[n] < b[n]))
}

proof fn lemma_no_later(a: Seq<char>, b: Seq<char>)
    requires
        quarantine::text_le(a, b),
    ensures
        no_later(a, b),
    decreases a.len(),
{
    if a.len() == 0 || a[0] != b[0] {
        assert(a.take(0) =~= b.take(0));
    } else {
        let x = a.drop_first();
        let y = b.drop_first();
        lemma_no_later(x, y);
        let n = choose|n: int| #[trigger]
            x.take(n) == y.take(n) && 0 <= n <= x.len() && n <= y.len() && (n == x.len() || (n
                < y.len() && x[n] < y[n]));
        assert forall|i: int| 0 <= i < n + 1 implies #[trigger] a.take(n + 1)[i] == b.take(
            n + 1,
        )[i] by {
            if i > 0 {
                assert(x.take(n)[i - 1] == y.take(n)[i - 1]);
            }
        }
        assert(a.take(n + 1) =~= b.take(n + 1));
    }
}

/// `order` is an order of all places of a list.
pub open spec fn reorders(order: Seq<usize>, n: nat) -> bool {
    &&& order.len() == n
    &&& order.no_duplicates()
    &&& forall|i: int| 0 <= i < order.len() ==> (#[trigger] order[i]) < n
}

/// The user sees all of the list, what waits for a decision first, then what is
/// blocked for this session, what is blocked for good, and what is only
/// remembered; within each of these by name, without regard to case.
pub proof fn quarantined_programs_are_shown_in_order(p: Programs, r: Vec<AppQuarantine>)
    requires
        call_ensures(Programs::quarantine_snapshot, (&p,), r),
    ensures
        exists|order: Seq<usize>| #[trigger]
            reorders(order, all_lines(p@).len()) && r@.len() == order.len() && forall|i: int|
                0 <= i < r@.len() ==> (#[trigger] r@[i])@ == all_lines(p@)[order[i] as int],
        forall|i: int, j: int|
            0 <= i < j < r@.len() ==> {
                let a = #[trigger] r@[i];
                let b = #[trigger] r@[j];
                &&& stage(a.status@) <= stage(b.status@)
                &&& stage(a.status@) == stage(b.status@) ==> no_later(
                    apps::lowercase(a.app_name@),
                    apps::lowercase(b.app_name@),
                )
            },
{
    let m = p@;
    lemma_lines(m);
    let lines = m.lines();
    let names = quarantine::lower_names(lines);
    let out = quarantine::lines_view(r@);
    let order = choose|order: Seq<usize>| #[trigger]
        quarantine::arranges(lines, names, order) && out == order.map_values(
            |i: usize| lines[i as int],
        );
    assert(out.len() == r@.len());
    assert forall|i: int| 0 <= i < r@.len() implies (#[trigger] r@[i])@ == lines[order[i] as int]
        by {
        assert(out[i] == r@[i]@);
    }
    assert(reorders(order, lines.len()));
    assert forall|i: int, j: int| 0 <= i < j < r@.len() implies {
        let a = #[trigger] r@[i];
        let b = #[trigger] r@[j];
        &&& stage(a.status@) <= stage(b.status@)
        &&& stage(a.status@) == stage(b.status@) ==> no_later(
            apps::lowercase(a.app_name@),
            apps::lowercase(b.app_name@),
        )
    } by {
        let a = order[i] as int;
        let b = order[j] as int;
        assert(r@[i]@ == lines[a] && r@[j]@ == lines[b]);
        assert(names[a] == apps::lowercase(lines[a].app_name));
        assert(names[b] == apps::lowercase(lines[b].app_name));
        quarantine::lemma_text_le_total(names[a], names[b]);
        if stage(lines[a].status) == stage(lines[b].status) {
            assert(quarantine::text_le(names[a], names[b]));
            lemma_no_later(names[a], names[b]);
        }
    }
}

} // verus!
