//! The words of the state file and of the interface are told apart.

use vstd::prelude::*;

verus! {

pub proof fn protocols_differ()
    ensures
        "all"@ != "tcp"@,
        "all"@ != "udp"@,
        "tcp"@ != "udp"@,
        "all"@.len() > 0,
        "tcp"@.len() > 0,
        "udp"@.len() > 0,
{
    reveal_strlit("all");
    reveal_strlit("tcp");
    reveal_strlit("udp");
    assert("all"@[0] == 'a' && "tcp"@[0] == 't' && "udp"@[0] == 'u');
}

pub proof fn decisions_differ()
    ensures
        "allow"@ != "block"@,
        "allow"@ != "quarantine"@,
        "block"@ != "quarantine"@,
        "allow"@.len() > 0,
{
    reveal_strlit("allow");
    reveal_strlit("block");
    reveal_strlit("quarantine");
    assert("allow"@[0] == 'a' && "block"@[0] == 'b' && "quarantine"@[0] == 'q');
}

pub proof fn directions_differ()
    ensures
        "inbound"@ != "outbound"@,
        "inbound"@ != "both"@,
        "outbound"@ != "both"@,
        "inbound"@.len() > 0,
        "outbound"@.len() > 0,
        "both"@.len() > 0,
{
    reveal_strlit("inbound");
    reveal_strlit("outbound");
    reveal_strlit("both");
    assert("inbound"@[0] == 'i' && "outbound"@[0] == 'o' && "both"@[0] == 'b');
}

pub proof fn scopes_differ()
    ensures
        "global"@ != "home"@,
        "global"@.len() > 0,
        "home"@.len() > 0,
{
    reveal_strlit("global");
    reveal_strlit("home");
    assert("global"@[0] == 'g' && "home"@[0] == 'h');
}

pub proof fn kinds_differ()
    ensures
        "ip"@ != "cidr"@,
        "any"@ != "ip"@,
        "any"@ != "cidr"@,
        "domain"@ != "ip"@,
        "domain"@ != "cidr"@,
{
    reveal_strlit("ip");
    reveal_strlit("cidr");
    reveal_strlit("any");
    reveal_strlit("domain");
    assert("ip"@[0] == 'i' && "cidr"@[0] == 'c' && "any"@[0] == 'a' && "domain"@[0] == 'd');
}

pub proof fn modules_differ()
    ensures
        "ddos"@ != "scan"@,
{
    reveal_strlit("ddos");
    reveal_strlit("scan");
    assert("ddos"@[0] == 'd' && "scan"@[0] == 's');
}

pub proof fn statuses_differ()
    ensures
        "waiting"@ != "session"@,
        "waiting"@ != "enforced"@,
        "waiting"@ != "remembered"@,
        "session"@ != "enforced"@,
        "session"@ != "remembered"@,
        "enforced"@ != "remembered"@,
{
    reveal_strlit("waiting");
    reveal_strlit("session");
    reveal_strlit("enforced");
    reveal_strlit("remembered");
    assert("waiting"@[0] == 'w' && "session"@[0] == 's' && "enforced"@[0] == 'e'
        && "remembered"@[0] == 'r');
}

} // verus!
