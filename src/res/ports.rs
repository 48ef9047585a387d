//! Port specifications and the grammar of the external-ports annotation:
//! `host:dest[:proto](,host:dest[:proto])*`.

use vstd::prelude::*;

use crate::text::{decimal, join_spec, split_spec, split_text, usize_text, views};

verus! {

#[derive(Clone, Copy, Debug, PartialEq, Eq, Structural, PartialOrd, Ord, Hash)]
pub enum Proto {
    Tcp,
    Udp,
}

#[derive(Clone, Copy, Debug, PartialEq, Eq, Structural, PartialOrd, Ord, Hash)]
pub struct PortSpec {
    pub host_port: u16,
    pub dest_port: u16,
    pub proto: Proto,
}

/// The name of a protocol as it appears in identities.
pub open spec fn proto_name(p: Proto) -> Seq<char> {
    match p {
        Proto::Tcp => "Tcp"@,
        Proto::Udp => "Udp"@,
    }
}

/// `host::dest::Proto`, the form a port takes inside identity hashes.
pub open spec fn port_text(p: PortSpec) -> Seq<char> {
    decimal(p.host_port as nat) + "::"@ + decimal(p.dest_port as nat) + "::"@ + proto_name(p.proto)
}

/// The texts of a list of ports.
pub open spec fn port_texts(ps: Seq<PortSpec>) -> Seq<Seq<char>> {
    ps.map_values(|p: PortSpec| port_text(p))
}

impl PortSpec {
    pub fn new_tcp(host_port: u16, dest_port: u16) -> (r: Self)
        ensures
            r == (PortSpec { host_port, dest_port, proto: Proto::Tcp }),
    {
        PortSpec { host_port, dest_port, proto: Proto::Tcp }
    }

    /// `host::dest::Proto`.
    pub fn to_text(&self) -> (r: String)
        ensures
            r@ == port_text(*self),
    {
        let mut s = usize_text(self.host_port as usize);
        s.append("::");
        let d = usize_text(self.dest_port as usize);
        s.append(d.as_str());
        s.append("::");
        match self.proto {
            Proto::Tcp => s.append("Tcp"),
            Proto::Udp => s.append("Udp"),
        }
        s
    }
}

/// The value of a non-empty run of decimal digits.
pub open spec fn digits_value(d: Seq<char>) -> nat
    decreases d.len(),
{
    if d.len() == 0 {
        0
    } else {
        digits_value(d.drop_last()) * 10 + ((d.last() as u32 - '0' as u32) as nat)
    }
}

pub open spec fn is_digit(c: char) -> bool {
    '0' <= c && c <= '9'
}

/// What `u16::from_str` accepts: an optional `+`, then one or more ASCII
/// digits whose value fits in 16 bits.
pub open spec fn parse_u16_spec(s: Seq<char>) -> Option<u16> {
    let d = if s.len() > 0 && s[0] == '+' {
        s.drop_first()
    } else {
        s
    };
    if d.len() > 0 && (forall|i: int| 0 <= i < d.len() ==> is_digit(#[trigger] d[i]))
        && digits_value(d) <= 65535 {
        Some(digits_value(d) as u16)
    } else {
        None
    }
}

/// Relies on `u16::from_str`: base 10, an optional leading `+`, ASCII
/// digits only, and an error on overflow or on anything else.
#[verifier::external_body]
fn parse_u16(s: &str) -> (r: Option<u16>)
    ensures
        r == parse_u16_spec(s@),
{
    s.parse::<u16>().ok()
}

/// One element of the annotation: `host:dest` or `host:dest:proto`, where a
/// protocol other than `udp` means tcp.
pub open spec fn parse_entry_spec(e: Seq<char>) -> Option<PortSpec> {
    let parts = split_spec(e, ':');
    if (parts.len() == 2 || parts.len() == 3) && parse_u16_spec(parts[0]) is Some
        && parse_u16_spec(parts[1]) is Some {
        Some(
            PortSpec {
                host_port: parse_u16_spec(parts[0])->0,
                dest_port: parse_u16_spec(parts[1])->0,
                proto: if parts.len() == 3 && parts[2] == "udp"@ {
                    Proto::Udp
                } else {
                    Proto::Tcp
                },
            },
        )
    } else {
        None
    }
}

/// The whole annotation: every comma-separated element must parse.
pub open spec fn parse_ports_spec(s: Seq<char>) -> Option<Seq<PortSpec>> {
    let entries = split_spec(s, ',');
    if forall|i: int| 0 <= i < entries.len() ==> (#[trigger] parse_entry_spec(entries[i])) is Some {
        Some(entries.map_values(|e: Seq<char>| parse_entry_spec(e)->0))
    } else {
        None
    }
}

fn parse_entry(e: &str) -> (r: Option<PortSpec>)
    ensures
        r == parse_entry_spec(e@),
{
    let parts = split_text(e, ':');
    let n = parts.len();
    if n != 2 && n != 3 {
        return None;
    }
    let host = parse_u16(parts[0].as_str());
    let dest = parse_u16(parts[1].as_str());
    match (host, dest) {
        (Some(h), Some(d)) => {
            let udp = String::from_str("udp");
            let proto = if n == 3 && parts[2] == udp {
                Proto::Udp
            } else {
                Proto::Tcp
            };
            Some(PortSpec { host_port: h, dest_port: d, proto })
        },
        _ => None,
    }
}

/// The ports a service or pod asks to expose, in annotation order.
#[derive(Debug)]
pub struct ExternalPorts {
    pub specs: Vec<PortSpec>,
}

impl View for ExternalPorts {
    type V = Seq<PortSpec>;

    open spec fn view(&self) -> Seq<PortSpec> {
        self.specs@
    }
}

pub fn copy_ports(v: &Vec<PortSpec>) -> (r: Vec<PortSpec>)
    ensures
        r@ == v@,
{
    let mut out: Vec<PortSpec> = Vec::new();
    let mut i: usize = 0;
    while i < v.len()
        invariant
            i <= v@.len(),
            out@ == v@.take(i as int),
        decreases v.len() - i,
    {
        out.push(v[i]);
        i = i + 1;
        assert(out@ =~= v@.take(i as int));
    }
    assert(v@.take(v@.len() as int) =~= v@);
    out
}

impl Clone for ExternalPorts {
    fn clone(&self) -> (r: Self)
        ensures
            r@ == self@,
    {
        ExternalPorts { specs: copy_ports(&self.specs) }
    }
}

impl PartialEq for ExternalPorts {
    fn eq(&self, other: &Self) -> (r: bool) {
        ports_eq(&self.specs, &other.specs)
    }
}

impl vstd::std_specs::cmp::PartialEqSpecImpl for ExternalPorts {
    open spec fn obeys_eq_spec() -> bool {
        true
    }

    open spec fn eq_spec(&self, other: &Self) -> bool {
        self@ == other@
    }
}

impl Eq for ExternalPorts {

}

/// Whether two port lists are the same, element by element.
pub fn ports_eq(a: &Vec<PortSpec>, b: &Vec<PortSpec>) -> (r: bool)
    ensures
        r == (a@ == b@),
{
    if a.len() != b.len() {
        return false;
    }
    let mut i: usize = 0;
    while i < a.len()
        invariant
            a@.len() == b@.len(),
            i <= a@.len(),
            forall|k: int| 0 <= k < i ==> a@[k] == b@[k],
        decreases a.len() - i,
    {
        if a[i] != b[i] {
            return false;
        }
        i = i + 1;
    }
    assert(a@ =~= b@);
    true
}

impl ExternalPorts {
    /// No ports at all.
    pub fn empty() -> (r: Self)
        ensures
            r@ == Seq::<PortSpec>::empty(),
    {
        ExternalPorts { specs: Vec::new() }
    }

    /// Parses the annotation; `None` if any element is malformed.
    pub fn parse(s: &str) -> (r: Option<Self>)
        ensures
            r is Some <==> parse_ports_spec(s@) is Some,
            r is Some ==> r->0@ == parse_ports_spec(s@)->0,
    {
        let entries = split_text(s, ',');
        let ghost es = views(entries@);
        let mut specs: Vec<PortSpec> = Vec::new();
        let mut i: usize = 0;
        while i < entries.len()
            invariant
                es == views(entries@),
                es == split_spec(s@, ','),
                i <= entries@.len(),
                forall|k: int| 0 <= k < i ==> (#[trigger] parse_entry_spec(es[k])) is Some,
                specs@ == es.take(i as int).map_values(|e: Seq<char>| parse_entry_spec(e)->0),
            decreases entries.len() - i,
        {
            match parse_entry(entries[i].as_str()) {
                Some(p) => {
                    specs.push(p);
                },
                None => {
                    assert(parse_entry_spec(es[i as int]) is None);
                    return None;
                },
            }
            i = i + 1;
            assert(specs@ =~= es.take(i as int).map_values(|e: Seq<char>| parse_entry_spec(e)->0));
        }
        assert(es.take(i as int) =~= es);
        Some(ExternalPorts { specs })
    }

    /// The ports' texts joined with `::`.
    pub fn joined_text(&self) -> (r: String)
        ensures
            r@ == join_spec(port_texts(self@), "::"@),
    {
        let mut texts: Vec<String> = Vec::new();
        let mut i: usize = 0;
        while i < self.specs.len()
            invariant
                i <= self@.len(),
                views(texts@) == port_texts(self@.take(i as int)),
            decreases self.specs.len() - i,
        {
            let ghost prev = views(texts@);
            let t = self.specs[i].to_text();
            texts.push(t);
            assert(views(texts@) =~= prev.push(port_text(self@[i as int])));
            assert(self@.take(i + 1) =~= self@.take(i as int).push(self@[i as int]));
            assert(port_texts(self@.take(i + 1)) =~= port_texts(self@.take(i as int)).push(
                port_text(self@[i as int]),
            ));
            i = i + 1;
        }
        assert(self@.take(i as int) =~= self@);
        crate::text::join_text(&texts, "::")
    }
}

} // verus!
