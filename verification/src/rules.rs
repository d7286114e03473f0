//! Forwarding rules.

use vstd::prelude::*;
use crate::addr::{SocketAddrV4, ipv4_text, law_ipv4_text_roundtrip, push_ipv4, spec_parse_ipv4};
use crate::text::{decimal, law_u16_text_roundtrip, push_decimal, spec_parse_u16};

verus! {

/// The transport protocol that a rule forwards.
#[derive(PartialEq, Eq, Structural, Clone, Copy, Debug)]
pub enum Protocol {
    TCP,
    UDP,
}

/// An IPv4 forwarding rule.
///
/// `protocol`: TCP or UDP;
/// `listen_port`: the port the proxy listens on for this rule;
/// `target_address`: the address and port the traffic is forwarded to.
#[derive(PartialEq, Eq, Structural, Clone, Copy, Debug)]
pub struct Rule {
    pub protocol: Protocol,
    pub listen_port: u16,
    pub target_address: SocketAddrV4,
}

/// The name of a protocol.
pub open spec fn protocol_name(p: Protocol) -> Seq<char> {
    match p {
        Protocol::TCP => "TCP"@,
        Protocol::UDP => "UDP"@,
    }
}

/// How a rule reads: `[TCP] 8080 -> 192.0.0.1:80`.
pub open spec fn rule_text(r: Rule) -> Seq<char> {
    "["@ + protocol_name(r.protocol) + "] "@ + decimal(r.listen_port as nat) + " -> "@ + ipv4_text(
        r.target_address.ip,
    ) + ":"@ + decimal(r.target_address.port as nat)
}

/// Law: a printed rule reads back.  Its text is `[`, the protocol's name,
/// `] `, a number that parses as the listen port, ` -> `, text that parses
/// as the target address, `:`, and a number that parses as the target port.
pub proof fn law_rule_text_reads_back(r: Rule)
    ensures
        exists|x: Seq<char>, a: Seq<char>, y: Seq<char>|
            rule_text(r) == "["@ + protocol_name(r.protocol) + "] "@ + x + " -> "@ + a + ":"@ + y
                && spec_parse_u16(x) == Some(r.listen_port) && spec_parse_ipv4(a) == Some(
                r.target_address.ip,
            ) && spec_parse_u16(y) == Some(r.target_address.port),
{
    law_u16_text_roundtrip(r.listen_port);
    law_u16_text_roundtrip(r.target_address.port);
    law_ipv4_text_roundtrip(r.target_address.ip);
    let x = decimal(r.listen_port as nat);
    let a = ipv4_text(r.target_address.ip);
    let y = decimal(r.target_address.port as nat);
    assert(rule_text(r) == "["@ + protocol_name(r.protocol) + "] "@ + x + " -> "@ + a + ":"@ + y);
}

impl Rule {
    /// The rule as text: `[<protocol>] <listen port> -> <target ip>:<target port>`.
    pub fn pretty_print(&self) -> (s: String)
        ensures
            s@ == rule_text(*self),
    {
        let mut s = String::from_str("[");
        match self.protocol {
            Protocol::TCP => s.append("TCP"),
            Protocol::UDP => s.append("UDP"),
        }
        s.append("] ");
        push_decimal(&mut s, self.listen_port as u32);
        s.append(" -> ");
        push_ipv4(&mut s, self.target_address.ip);
        s.append(":");
        push_decimal(&mut s, self.target_address.port as u32);
        s
    }
}

} // verus!
