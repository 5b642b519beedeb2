//! Turning bound sockets into port rows.
//!
//! Two jobs. Presentation: an address arrives as bits and leaves as
//! `127.0.0.1` or `[::1]`; the bracket is how the Ports screen tells the
//! families apart. Attribution: the owning PID becomes a process identity only
//! when this tick's process rows hold one for it.
//!
//! Endpoint identity is `(protocol, family, address, scope, port)`, never the
//! port alone: `127.0.0.1:5173`, `[::1]:5173` and `0.0.0.0:5173` are three
//! rows.
use vstd::prelude::*;

use crate::assoc::Assoc;
use crate::logic::process::RawProcess;
use crate::models::{PortRow, PortState, ProcessRow, Protocol};
use crate::order::{is_stable_sort_of, lemma_text_order, sort_stably, text_less, text_lt, Ranked};
use crate::text::{decimal, digits, push_decimal, push_digits, string_of};

verus! {

/// An IP address as its bits, most significant first: `V4(0x7f000001)` is
/// `127.0.0.1`.
#[derive(Debug, Clone, Copy, PartialEq, Eq, Structural, Hash)]
pub enum IpAddress {
    V4(u32),
    V6(u128),
}

/// One bound socket as the socket tables report it.
#[derive(Debug, Clone, Copy, PartialEq, Eq, Structural, Hash)]
pub struct RawEndpoint {
    pub protocol: Protocol,
    pub address: IpAddress,
    /// IPv6 interface scope; non-zero only for link-local addresses, where
    /// two interfaces can carry the same `fe80::` address.
    pub scope_id: u32,
    pub port: u16,
    pub pid: u32,
}

// ------------------------------------------------------------ byte order

/// A socket-table `DWORD` read as the four bytes it holds in memory. Windows
/// runs little-endian on every architecture it supports, so the first byte in
/// memory is the low byte of the value.
pub open spec fn memory_byte(raw: u32, i: int) -> nat {
    ((raw as nat) / pow256(i)) % 256
}

pub open spec fn pow256(i: int) -> nat {
    if i <= 0 {
        1
    } else if i == 1 {
        256
    } else if i == 2 {
        65536
    } else {
        16777216
    }
}

/// A `DWORD` holding an IPv4 address in network byte order: the first octet
/// is the first byte in memory.
pub fn ipv4(raw: u32) -> (a: IpAddress)
    ensures
        a == IpAddress::V4(
            (memory_byte(raw, 0) * 16777216 + memory_byte(raw, 1) * 65536 + memory_byte(raw, 2) * 256
                + memory_byte(raw, 3)) as u32,
        ),
{
    let b0 = raw % 256;
    let b1 = raw / 256 % 256;
    let b2 = raw / 65536 % 256;
    let b3 = raw / 16777216 % 256;
    IpAddress::V4(b0 * 16777216 + b1 * 65536 + b2 * 256 + b3)
}

/// A `DWORD` whose first two bytes in memory hold a port in network byte
/// order; the other two are reserved and ignored.
pub fn port(raw: u32) -> (p: u16)
    ensures
        p == memory_byte(raw, 0) * 256 + memory_byte(raw, 1),
{
    let b0 = raw % 256;
    let b1 = raw / 256 % 256;
    (b0 * 256 + b1) as u16
}

// ------------------------------------------------------------ presentation

/// Dotted-decimal text of an IPv4 address.
pub open spec fn ipv4_text(bits: u32) -> Seq<char> {
    decimal((bits / 16777216) as nat) + seq!['.'] + decimal((bits / 65536 % 256) as nat) + seq!['.']
        + decimal((bits / 256 % 256) as nat) + seq!['.'] + decimal((bits % 256) as nat)
}

/// The last `n` 16-bit groups of `bits`, most significant first.
pub open spec fn segments(bits: nat, n: nat) -> Seq<nat>
    decreases n,
{
    if n == 0 {
        seq![]
    } else {
        segments(bits / 65536, (n - 1) as nat).push(bits % 65536)
    }
}

proof fn lemma_segments(bits: nat, n: nat)
    ensures
        segments(bits, n).len() == n,
        forall|i: int| 0 <= i < n ==> #[trigger] segments(bits, n)[i] < 65536,
    decreases n,
{
    if n > 0 {
        lemma_segments(bits / 65536, (n - 1) as nat);
    }
}

pub open spec fn hex(n: nat) -> Seq<char> {
    digits(n, 16, false)
}

/// Groups in lower-case hexadecimal, colon-separated.
pub open spec fn hex_groups(s: Seq<nat>) -> Seq<char>
    decreases s.len(),
{
    if s.len() == 0 {
        seq![]
    } else if s.len() == 1 {
        hex(s[0])
    } else {
        hex_groups(s.drop_last()) + seq![':'] + hex(s.last())
    }
}

/// How many zero groups start at `i`.
pub open spec fn zero_run(s: Seq<nat>, i: int) -> nat
    decreases s.len() - i,
{
    if i < 0 || i >= s.len() || s[i] != 0 {
        0
    } else {
        1 + zero_run(s, i + 1)
    }
}

/// The leftmost longest run of zero groups at or after `i`: its start and
/// length, `(0, 0)` when there is none.
pub open spec fn longest_zero_run(s: Seq<nat>, i: int) -> (int, nat)
    decreases s.len() - i,
{
    if i < 0 || i >= s.len() {
        (0, 0)
    } else {
        let rest = longest_zero_run(s, i + 1);
        let here = zero_run(s, i);
        if here > 0 && here >= rest.1 {
            (i, here)
        } else {
            rest
        }
    }
}

/// IPv6 text as `std` writes it: an IPv4-mapped address as `::ffff:a.b.c.d`,
/// otherwise lower-case hex groups with the leftmost longest run of two or
/// more zero groups written `::`.
pub open spec fn ipv6_text(bits: u128) -> Seq<char> {
    let s = segments(bits as nat, 8);
    if s[0] == 0 && s[1] == 0 && s[2] == 0 && s[3] == 0 && s[4] == 0 && s[5] == 0xffff {
        seq![':', ':', 'f', 'f', 'f', 'f', ':'] + ipv4_text((s[6] * 65536 + s[7]) as u32)
    } else {
        let run = longest_zero_run(s, 0);
        if run.1 > 1 {
            hex_groups(s.take(run.0)) + seq![':', ':'] + hex_groups(s.skip(run.0 + run.1))
        } else {
            hex_groups(s)
        }
    }
}

/// The presentation form of an address: IPv6 bracketed, with its scope when
/// it has one.
pub open spec fn spec_format_address(address: IpAddress, scope_id: u32) -> Seq<char> {
    match address {
        IpAddress::V4(bits) => ipv4_text(bits),
        IpAddress::V6(bits) => if scope_id == 0 {
            seq!['['] + ipv6_text(bits) + seq![']']
        } else {
            seq!['['] + ipv6_text(bits) + seq!['%'] + decimal(scope_id as nat) + seq![']']
        },
    }
}

fn push_ipv4(out: &mut Vec<char>, bits: u32)
    ensures
        final(out)@ == old(out)@ + ipv4_text(bits),
{
    push_decimal(out, (bits / 16777216) as u64);
    out.push('.');
    push_decimal(out, (bits / 65536 % 256) as u64);
    out.push('.');
    push_decimal(out, (bits / 256 % 256) as u64);
    out.push('.');
    push_decimal(out, (bits % 256) as u64);
    proof {
        assert(final(out)@ =~= old(out)@ + ipv4_text(bits));
    }
}

pub open spec fn nats(v: Seq<u32>) -> Seq<nat> {
    v.map_values(|x: u32| x as nat)
}

fn push_segments(out: &mut Vec<u32>, bits: u128, n: usize)
    requires
        n <= 8,
    ensures
        nats(final(out)@) == nats(old(out)@) + segments(bits as nat, n as nat),
    decreases n,
{
    if n > 0 {
        push_segments(out, bits / 65536, n - 1);
        let ghost mid = out@;
        out.push((bits % 65536) as u32);
        proof {
            assert(nats(out@) =~= nats(mid).push((bits % 65536) as nat));
            assert(nats(out@) =~= nats(old(out)@) + segments(bits as nat, n as nat));
        }
    } else {
        proof {
            assert(nats(out@) =~= nats(old(out)@) + segments(bits as nat, n as nat));
        }
    }
}

fn push_hex_groups(out: &mut Vec<char>, segs: &Vec<u32>, from: usize, to: usize)
    requires
        from <= to <= segs@.len(),
    ensures
        final(out)@ == old(out)@ + hex_groups(nats(segs@).subrange(from as int, to as int)),
{
    let ghost start = out@;
    let mut i: usize = from;
    while i < to
        invariant
            from <= i <= to <= segs@.len(),
            out@ == start + hex_groups(nats(segs@).subrange(from as int, i as int)),
        decreases to - i,
    {
        let ghost before = out@;
        if i > from {
            out.push(':');
        }
        push_digits(out, segs[i] as u64, 16, false);
        proof {
            let sub = nats(segs@).subrange(from as int, i + 1);
            assert(sub.drop_last() =~= nats(segs@).subrange(from as int, i as int));
            assert(sub.last() == segs@[i as int] as nat);
            if i == from {
                assert(sub.len() == 1);
                assert(out@ =~= start + hex_groups(sub));
            } else {
                assert(out@ =~= start + hex_groups(sub));
            }
        }
        i = i + 1;
    }
}

fn push_ipv6(out: &mut Vec<char>, bits: u128)
    ensures
        final(out)@ == old(out)@ + ipv6_text(bits),
{
    let mut segs: Vec<u32> = Vec::new();
    push_segments(&mut segs, bits, 8);
    let ghost s = segments(bits as nat, 8);
    proof {
        lemma_segments(bits as nat, 8);
        assert(nats(segs@) =~= s);
        assert(segs@.len() == 8);
        assert forall|i: int| 0 <= i < 8 implies #[trigger] segs@[i] as nat == s[i] by {
            assert(nats(segs@)[i] == segs@[i] as nat);
        }
        assert(segs@[6] < 65536 && segs@[7] < 65536);
    }
    if segs[0] == 0 && segs[1] == 0 && segs[2] == 0 && segs[3] == 0 && segs[4] == 0 && segs[5] == 0xffff {
        out.push(':');
        out.push(':');
        out.push('f');
        out.push('f');
        out.push('f');
        out.push('f');
        out.push(':');
        push_ipv4(out, segs[6] * 65536 + segs[7]);
        proof {
            assert(final(out)@ =~= old(out)@ + ipv6_text(bits));
        }
        return;
    }
    // The leftmost longest run of zero groups, scanning from the right.
    let mut best_start: usize = 0;
    let mut best_len: usize = 0;
    let mut run: usize = 0;
    let mut i: usize = 8;
    while i > 0
        invariant
            segs@.len() == 8,
            nats(segs@) == s,
            i <= 8,
            run == zero_run(s, i as int),
            (best_start as int, best_len as nat) == longest_zero_run(s, i as int),
            run <= 8 - i,
        decreases i,
    {
        i = i - 1;
        proof {
            assert(segs@[i as int] as nat == s[i as int]);
        }
        if segs[i] == 0 {
            run = run + 1;
        } else {
            run = 0;
        }
        if run > 0 && run >= best_len {
            best_start = i;
            best_len = run;
        }
    }
    if best_len > 1 {
        proof {
            lemma_zero_run_fits(s, 0);
        }
        push_hex_groups(out, &segs, 0, best_start);
        out.push(':');
        out.push(':');
        push_hex_groups(out, &segs, best_start + best_len, 8);
        proof {
            assert(nats(segs@).subrange(0, best_start as int) =~= s.take(best_start as int));
            assert(nats(segs@).subrange((best_start + best_len) as int, 8) =~= s.skip(
                (best_start + best_len) as int,
            ));
            assert(final(out)@ =~= old(out)@ + ipv6_text(bits));
        }
    } else {
        push_hex_groups(out, &segs, 0, 8);
        proof {
            assert(nats(segs@).subrange(0, 8) =~= s);
            assert(final(out)@ =~= old(out)@ + ipv6_text(bits));
        }
    }
}

proof fn lemma_zero_run_len(s: Seq<nat>, i: int)
    requires
        0 <= i <= s.len(),
    ensures
        i + zero_run(s, i) <= s.len(),
    decreases s.len() - i,
{
    if i < s.len() && s[i] == 0 {
        lemma_zero_run_len(s, i + 1);
    }
}

proof fn lemma_zero_run_fits(s: Seq<nat>, i: int)
    requires
        0 <= i <= s.len(),
    ensures
        ({
            let r = longest_zero_run(s, i);
            r.1 == 0 || (i <= r.0 && r.0 + r.1 <= s.len())
        }),
    decreases s.len() - i,
{
    if i < s.len() {
        lemma_zero_run_fits(s, i + 1);
        lemma_zero_run_len(s, i);
    }
}

/// Render an address the way the contract and the UI expect it.
///
/// Wildcards get no special case: `0.0.0.0` and `[::]` are reachable from
/// the network, and rewriting them as "localhost" would say otherwise. A
/// link-local address keeps its scope, which tells two interfaces apart.
pub fn format_address(address: IpAddress, scope_id: u32) -> (r: String)
    ensures
        r@ == spec_format_address(address, scope_id),
{
    let mut out: Vec<char> = Vec::new();
    match address {
        IpAddress::V4(bits) => {
            push_ipv4(&mut out, bits);
        },
        IpAddress::V6(bits) => {
            out.push('[');
            push_ipv6(&mut out, bits);
            if scope_id != 0 {
                out.push('%');
                push_decimal(&mut out, scope_id as u64);
            }
            out.push(']');
        },
    }
    proof {
        assert(out@ =~= spec_format_address(address, scope_id));
    }
    string_of(out.as_slice())
}

// ------------------------------------------------------------ attribution

/// The name the process list gives `pid`; when a PID occurs twice the later
/// entry wins.
pub open spec fn name_for(processes: Seq<RawProcess>, pid: u32) -> Option<Seq<char>>
    decreases processes.len(),
{
    if processes.len() == 0 {
        None
    } else if processes.last().pid == pid {
        Some(processes.last().name@)
    } else {
        name_for(processes.drop_last(), pid)
    }
}

/// The identity this tick's rows hold for `pid`; the later row wins.
pub open spec fn identity_for(rows: Seq<ProcessRow>, pid: u32) -> Option<Seq<char>>
    decreases rows.len(),
{
    if rows.len() == 0 {
        None
    } else if rows.last().pid == pid {
        Some(rows.last().id@)
    } else {
        identity_for(rows.drop_last(), pid)
    }
}

/// What name and identity a socket's PID resolves to. A PID missing from the
/// process list belongs to a process that exited between the two scans.
pub open spec fn spec_owner(processes: Seq<RawProcess>, rows: Seq<ProcessRow>, pid: u32) -> (Seq<char>, Option<Seq<char>>) {
    match name_for(processes, pid) {
        Some(name) => (name, identity_for(rows, pid)),
        None => ("(exited)"@, None),
    }
}

fn name_of(processes: &[RawProcess], pid: u32) -> (r: Option<&String>)
    ensures
        match r {
            Some(n) => name_for(processes@, pid) == Some(n@),
            None => name_for(processes@, pid) is None,
        },
{
    let mut i: usize = processes.len();
    proof {
        assert(processes@.take(i as int) =~= processes@);
    }
    while i > 0
        invariant
            i <= processes@.len(),
            name_for(processes@, pid) == name_for(processes@.take(i as int), pid),
        decreases i,
    {
        let ghost prefix = processes@.take(i as int);
        proof {
            assert(prefix.drop_last() =~= processes@.take(i - 1));
            assert(prefix.last() == processes@[i - 1]);
        }
        if processes[i - 1].pid == pid {
            return Some(&processes[i - 1].name);
        }
        i = i - 1;
    }
    None
}

fn identity_of(rows: &[ProcessRow], pid: u32) -> (r: Option<&String>)
    ensures
        match r {
            Some(id) => identity_for(rows@, pid) == Some(id@),
            None => identity_for(rows@, pid) is None,
        },
{
    let mut i: usize = rows.len();
    proof {
        assert(rows@.take(i as int) =~= rows@);
    }
    while i > 0
        invariant
            i <= rows@.len(),
            identity_for(rows@, pid) == identity_for(rows@.take(i as int), pid),
        decreases i,
    {
        let ghost prefix = rows@.take(i as int);
        proof {
            assert(prefix.drop_last() =~= rows@.take(i - 1));
            assert(prefix.last() == rows@[i - 1]);
        }
        if rows[i - 1].pid == pid {
            return Some(&rows[i - 1].id);
        }
        i = i - 1;
    }
    None
}

/// Resolve an owning PID to a name and, where it is safe, an identity.
///
/// A process in this tick's rows gets its `{pid}-{startedAt}` identity. One
/// that was enumerated but whose creation time could not be read is named and
/// given no identity, so nothing can act on it. A PID the process scan never
/// saw is `(exited)`.
pub fn attribute(pid: u32, processes: &[RawProcess], rows: &[ProcessRow]) -> (r: (String, Option<String>))
    ensures
        (r.0@, match r.1 {
            Some(id) => Some(id@),
            None => None,
        }) == spec_owner(processes@, rows@, pid),
{
    match name_of(processes, pid) {
        Some(name) => {
            let id = match identity_of(rows, pid) {
                Some(id) => Some(id.clone()),
                None => None,
            };
            (name.clone(), id)
        },
        None => {
            let exited = crate::text::string_of(&['(', 'e', 'x', 'i', 't', 'e', 'd', ')']);
            proof {
                reveal_strlit("(exited)");
                assert(exited@ =~= "(exited)"@);
            }
            (exited, None)
        },
    }
}

// ------------------------------------------------------------ the rows

proof fn lemma_push_contains<T>(s: Seq<T>, a: T, x: T)
    ensures
        s.push(a).contains(x) <==> (s.contains(x) || x == a),
{
    if s.contains(x) {
        let k = choose|k: int| 0 <= k < s.len() && s[k] == x;
        assert(s.push(a)[k] == x);
    }
    if x == a {
        assert(s.push(a)[s.len() as int] == a);
    }
    if s.push(a).contains(x) && x != a {
        let k = choose|k: int| 0 <= k < s.push(a).len() && s.push(a)[k] == x;
        assert(s[k] == x);
    }
}

/// The sockets with repeats removed, first occurrence kept, in input order.
///
/// Windows repeats rows for a socket bound several times with `SO_REUSEADDR`;
/// the repeats agree in every field. Two processes sharing a port are two
/// rows and both survive.
pub open spec fn first_occurrences(e: Seq<RawEndpoint>) -> Seq<RawEndpoint>
    decreases e.len(),
{
    if e.len() == 0 {
        seq![]
    } else {
        let rest = first_occurrences(e.drop_last());
        if e.drop_last().contains(e.last()) {
            rest
        } else {
            rest.push(e.last())
        }
    }
}

pub open spec fn opt_text(o: Option<String>) -> Option<Seq<char>> {
    match o {
        Some(s) => Some(s@),
        None => None,
    }
}

/// The service label for an identity, when the identity produced a service.
pub open spec fn label_for_identity(labels: Map<Seq<char>, String>, id: Option<Seq<char>>) -> Option<Seq<char>> {
    match id {
        Some(k) => if labels.contains_key(k) {
            Some(labels[k]@)
        } else {
            None
        },
        None => None,
    }
}

/// `r` is the row for socket `e`.
pub open spec fn row_for(
    r: PortRow,
    e: RawEndpoint,
    processes: Seq<RawProcess>,
    rows: Seq<ProcessRow>,
    labels: Map<Seq<char>, String>,
) -> bool {
    let owner = spec_owner(processes, rows, e.pid);
    &&& r.port == e.port
    &&& r.protocol == e.protocol
    &&& r.address@ == spec_format_address(e.address, e.scope_id)
    &&& r.pid == e.pid
    &&& opt_text(r.process_id) == owner.1
    &&& r.process_name@ == owner.0
    &&& opt_text(r.service_label) == label_for_identity(labels, owner.1)
    &&& r.state == PortState::Listening
}

/// TCP before UDP when everything else ties.
pub open spec fn spec_protocol_order(p: Protocol) -> u8 {
    match p {
        Protocol::Tcp => 0,
        Protocol::Udp => 1,
    }
}

pub fn protocol_order(p: Protocol) -> (r: u8)
    ensures
        r == spec_protocol_order(p),
{
    match p {
        Protocol::Tcp => 0,
        Protocol::Udp => 1,
    }
}

/// Whether presentation text is an IPv6 address: it starts with `[`.
pub open spec fn is_bracketed(address: Seq<char>) -> bool {
    address.len() > 0 && address[0] == '['
}

fn bracketed(address: &String) -> (r: bool)
    ensures
        r == is_bracketed(address@),
{
    let chars = crate::text::chars_of(address.as_str());
    chars.len() > 0 && chars[0] == '['
}

/// The socket order: port, then IPv4 before IPv6, then address text, then
/// TCP before UDP.
pub open spec fn socket_precedes(
    port_a: u16,
    addr_a: Seq<char>,
    proto_a: Protocol,
    port_b: u16,
    addr_b: Seq<char>,
    proto_b: Protocol,
) -> bool {
    ||| port_a < port_b
    ||| port_a == port_b && !is_bracketed(addr_a) && is_bracketed(addr_b)
    ||| port_a == port_b && is_bracketed(addr_a) == is_bracketed(addr_b) && text_lt(addr_a, addr_b)
    ||| port_a == port_b && is_bracketed(addr_a) == is_bracketed(addr_b) && addr_a == addr_b
        && spec_protocol_order(proto_a) < spec_protocol_order(proto_b)
}

pub proof fn lemma_socket_order(
    pa: u16,
    aa: Seq<char>,
    ra: Protocol,
    pb: u16,
    ab: Seq<char>,
    rb: Protocol,
    pc: u16,
    ac: Seq<char>,
    rc: Protocol,
)
    ensures
        !socket_precedes(pa, aa, ra, pa, aa, ra),
        socket_precedes(pa, aa, ra, pb, ab, rb) && socket_precedes(pb, ab, rb, pc, ac, rc)
            ==> socket_precedes(pa, aa, ra, pc, ac, rc),
        socket_precedes(pa, aa, ra, pb, ab, rb) ==> socket_precedes(pa, aa, ra, pc, ac, rc)
            || socket_precedes(pc, ac, rc, pb, ab, rb),
{
    lemma_text_order(aa, ab, ac);
    lemma_text_order(ab, ac, aa);
    lemma_text_order(ac, aa, ab);
    lemma_text_order(aa, ac, ab);
    lemma_text_order(ab, aa, ac);
    lemma_text_order(ac, ab, aa);
}

pub(crate) fn socket_goes_before(
    port_a: u16,
    addr_a: &String,
    proto_a: Protocol,
    port_b: u16,
    addr_b: &String,
    proto_b: Protocol,
) -> (r: bool)
    ensures
        r == socket_precedes(port_a, addr_a@, proto_a, port_b, addr_b@, proto_b),
{
    if port_a != port_b {
        return port_a < port_b;
    }
    let ba = bracketed(addr_a);
    let bb = bracketed(addr_b);
    if ba != bb {
        return !ba;
    }
    if text_less(addr_a.as_str(), addr_b.as_str()) {
        return true;
    }
    if text_less(addr_b.as_str(), addr_a.as_str()) {
        proof {
            lemma_text_order(addr_a@, addr_b@, addr_a@);
        }
        return false;
    }
    proof {
        lemma_text_order(addr_a@, addr_b@, addr_a@);
    }
    protocol_order(proto_a) < protocol_order(proto_b)
}

impl Ranked for PortRow {
    open spec fn precedes(&self, other: &Self) -> bool {
        socket_precedes(self.port, self.address@, self.protocol, other.port, other.address@, other.protocol)
    }

    proof fn lemma_irreflexive(a: &Self) {
        lemma_socket_order(a.port, a.address@, a.protocol, a.port, a.address@, a.protocol, a.port, a.address@, a.protocol);
    }

    proof fn lemma_transitive(a: &Self, b: &Self, c: &Self) {
        lemma_socket_order(a.port, a.address@, a.protocol, b.port, b.address@, b.protocol, c.port, c.address@, c.protocol);
    }

    proof fn lemma_split(a: &Self, b: &Self, c: &Self) {
        lemma_socket_order(a.port, a.address@, a.protocol, b.port, b.address@, b.protocol, c.port, c.address@, c.protocol);
    }

    fn goes_before(&self, other: &Self) -> (r: bool) {
        socket_goes_before(self.port, &self.address, self.protocol, other.port, &other.address, other.protocol)
    }
}

/// Build the port rows for this tick's sockets and processes.
///
/// `processes` names every process, including protected ones with no row;
/// `rows` holds identities, only for processes whose creation time was
/// readable; `labels` maps an identity to its service label. Repeated sockets
/// are dropped, and the rows come out in socket order, ties in input order.
pub fn map_ports(
    endpoints: &[RawEndpoint],
    processes: &[RawProcess],
    rows: &[ProcessRow],
    labels: &Assoc<String>,
) -> (out: Vec<PortRow>)
    requires
        labels.wf(),
    ensures
        exists|unsorted: Seq<PortRow>|
            {
                &&& unsorted.len() == first_occurrences(endpoints@).len()
                &&& forall|i: int|
                    0 <= i < unsorted.len() ==> row_for(
                        #[trigger] unsorted[i],
                        first_occurrences(endpoints@)[i],
                        processes@,
                        rows@,
                        labels.view(),
                    )
                &&& is_stable_sort_of(out@, unsorted)
            },
{
    let mut seen: Vec<RawEndpoint> = Vec::new();
    let mut unsorted: Vec<PortRow> = Vec::new();
    let mut i: usize = 0;
    while i < endpoints.len()
        invariant
            labels.wf(),
            i <= endpoints@.len(),
            seen@ == first_occurrences(endpoints@.take(i as int)),
            unsorted@.len() == seen@.len(),
            forall|k: int|
                0 <= k < unsorted@.len() ==> row_for(
                    #[trigger] unsorted@[k],
                    seen@[k],
                    processes@,
                    rows@,
                    labels.view(),
                ),
            forall|x: RawEndpoint| seen@.contains(x) <==> endpoints@.take(i as int).contains(x),
        decreases endpoints@.len() - i,
    {
        let e = endpoints[i];
        let ghost prefix = endpoints@.take(i as int + 1);
        proof {
            assert(prefix.drop_last() =~= endpoints@.take(i as int));
            assert(prefix.last() == e);
        }
        let ghost old_seen = seen@;
        let mut found = false;
        let mut j: usize = 0;
        while j < seen.len()
            invariant
                j <= seen@.len(),
                found == exists|k: int| 0 <= k < j && seen@[k] == e,
            decreases seen@.len() - j,
        {
            if seen[j] == e {
                found = true;
            }
            j = j + 1;
        }
        if !found {
            let (name, id) = attribute(e.pid, processes, rows);
            let label = match &id {
                Some(k) => match labels.get(k.as_str()) {
                    Some(l) => Some(l.clone()),
                    None => None,
                },
                None => None,
            };
            let row = PortRow {
                port: e.port,
                protocol: e.protocol,
                address: format_address(e.address, e.scope_id),
                pid: e.pid,
                process_id: id,
                process_name: name,
                service_label: label,
                state: PortState::Listening,
            };
            proof {
                if seen@.contains(e) {
                    let k = choose|k: int| 0 <= k < seen@.len() && seen@[k] == e;
                    assert(false);
                }
            }
            seen.push(e);
            unsorted.push(row);
            proof {
                assert(seen@ =~= old_seen.push(e));
            }
        } else {
            proof {
                let k = choose|k: int| 0 <= k < seen@.len() && seen@[k] == e;
                assert(seen@.contains(e));
            }
        }
        proof {
            assert(prefix =~= endpoints@.take(i as int).push(e));
            assert forall|x: RawEndpoint| seen@.contains(x) <==> prefix.contains(x) by {
                lemma_push_contains(endpoints@.take(i as int), e, x);
                if !found {
                    lemma_push_contains(old_seen, e, x);
                }
            }
        }
        i = i + 1;
    }
    proof {
        assert(endpoints@.take(endpoints@.len() as int) =~= endpoints@);
    }
    sort_stably(unsorted)
}

/// A repeated socket is listed once: the sockets kept are pairwise
/// different, every socket reported is among them, and nothing else is.
pub proof fn law_each_socket_listed_once(e: Seq<RawEndpoint>)
    ensures
        forall|i: int, j: int| 0 <= i < j < first_occurrences(e).len() ==> #[trigger] first_occurrences(e)[i]
            != #[trigger] first_occurrences(e)[j],
        forall|k: int| 0 <= k < e.len() ==> first_occurrences(e).contains(#[trigger] e[k]),
        forall|j: int| 0 <= j < first_occurrences(e).len() ==> e.contains(#[trigger] first_occurrences(e)[j]),
    decreases e.len(),
{
    if e.len() > 0 {
        let rest = e.drop_last();
        let fr = first_occurrences(rest);
        let f = first_occurrences(e);
        law_each_socket_listed_once(rest);
        assert forall|k: int| 0 <= k < e.len() implies f.contains(#[trigger] e[k]) by {
            if k < rest.len() {
                assert(rest[k] == e[k]);
                assert(fr.contains(rest[k]));
                let j = choose|j: int| 0 <= j < fr.len() && fr[j] == rest[k];
                assert(f[j] == fr[j]);
            } else if rest.contains(e.last()) {
                let m = choose|m: int| 0 <= m < rest.len() && rest[m] == e.last();
                assert(fr.contains(rest[m]));
                assert(e[k] == e.last());
            } else {
                assert(f[fr.len() as int] == e.last());
            }
        }
        assert forall|j: int| 0 <= j < f.len() implies e.contains(#[trigger] f[j]) by {
            if j < fr.len() {
                assert(f[j] == fr[j]);
                assert(rest.contains(fr[j]));
                let m = choose|m: int| 0 <= m < rest.len() && rest[m] == fr[j];
                assert(e[m] == rest[m]);
            } else {
                assert(e[e.len() - 1] == f[j]);
            }
        }
        if !rest.contains(e.last()) {
            assert forall|i: int, j: int| 0 <= i < j < f.len() implies #[trigger] f[i] != #[trigger] f[j] by {
                if j == fr.len() {
                    if f[i] == f[j] {
                        assert(f[i] == fr[i]);
                        assert(rest.contains(fr[i]));
                    }
                } else {
                    assert(f[i] == fr[i] && f[j] == fr[j]);
                }
            }
        }
    }
}

/// The order port rows come out in: ascending by port; on one port, IPv4
/// addresses before IPv6 ones, and within a family by address text; on one
/// address and port, TCP before UDP.
pub proof fn law_port_rows_come_in_socket_order(out: Seq<PortRow>, unsorted: Seq<PortRow>)
    requires
        crate::order::is_stable_sort_of(out, unsorted),
    ensures
        forall|i: int, j: int| 0 <= i < j < out.len() ==> (#[trigger] out[i]).port <= (#[trigger] out[j]).port,
        forall|i: int, j: int|
            0 <= i < j < out.len() && (#[trigger] out[i]).port == (#[trigger] out[j]).port ==> !(is_bracketed(
                out[i].address@,
            ) && !is_bracketed(out[j].address@)),
        forall|i: int, j: int|
            0 <= i < j < out.len() && (#[trigger] out[i]).port == (#[trigger] out[j]).port && out[i].address@
                == out[j].address@ ==> !(out[i].protocol == Protocol::Udp && out[j].protocol == Protocol::Tcp),
        forall|i: int, j: int|
            0 <= i < j < out.len() && (#[trigger] out[i]).port == (#[trigger] out[j]).port && is_bracketed(
                out[i].address@,
            ) == is_bracketed(out[j].address@) ==> !crate::order::lexically_before(out[j].address@, out[i].address@),
{
    let perm = choose|perm: Seq<int>| crate::order::is_stable_arrangement(out, unsorted, perm);
    assert forall|i: int, j: int| 0 <= i < j < out.len() implies (#[trigger] out[i]).port <= (#[trigger] out[j]).port by {
        assert(!out[j].precedes(&out[i]));
    }
    assert forall|i: int, j: int|
        0 <= i < j < out.len() && (#[trigger] out[i]).port == (#[trigger] out[j]).port implies !(is_bracketed(
        out[i].address@,
    ) && !is_bracketed(out[j].address@)) by {
        assert(!out[j].precedes(&out[i]));
    }
    assert forall|i: int, j: int|
        0 <= i < j < out.len() && (#[trigger] out[i]).port == (#[trigger] out[j]).port && out[i].address@
            == out[j].address@ implies !(out[i].protocol == Protocol::Udp && out[j].protocol == Protocol::Tcp) by {
        assert(!out[j].precedes(&out[i]));
        crate::order::lemma_text_order(out[i].address@, out[i].address@, out[i].address@);
    }
    assert forall|i: int, j: int|
        0 <= i < j < out.len() && (#[trigger] out[i]).port == (#[trigger] out[j]).port && is_bracketed(
            out[i].address@,
        ) == is_bracketed(out[j].address@) implies !crate::order::lexically_before(out[j].address@, out[i].address@) by {
        assert(!out[j].precedes(&out[i]));
        crate::order::law_text_order_is_lexical(out[j].address@, out[i].address@);
    }
}

proof fn lemma_name_for(processes: Seq<RawProcess>, pid: u32)
    ensures
        name_for(processes, pid) is None <==> forall|k: int| 0 <= k < processes.len() ==> (#[trigger] processes[k]).pid != pid,
        name_for(processes, pid) matches Some(n) ==> exists|k: int|
            0 <= k < processes.len() && (#[trigger] processes[k]).pid == pid && processes[k].name@ == n && forall|m: int|
                k < m < processes.len() ==> (#[trigger] processes[m]).pid != pid,
    decreases processes.len(),
{
    if processes.len() > 0 {
        let rest = processes.drop_last();
        let last = processes.len() - 1;
        lemma_name_for(rest, pid);
        assert(processes[last] == processes.last());
        assert forall|k: int| 0 <= k < rest.len() implies #[trigger] processes[k] == rest[k] by {}
        if processes.last().pid != pid {
            if let Some(n) = name_for(processes, pid) {
                let k = choose|k: int|
                    0 <= k < rest.len() && (#[trigger] rest[k]).pid == pid && rest[k].name@ == n && forall|m: int|
                        k < m < rest.len() ==> (#[trigger] rest[m]).pid != pid;
                assert(processes[k] == rest[k]);
                assert forall|m: int| k < m < processes.len() implies (#[trigger] processes[m]).pid != pid by {
                    if m < last {
                        assert(rest[m].pid != pid);
                    }
                }
            } else {
                assert forall|k: int| 0 <= k < processes.len() implies (#[trigger] processes[k]).pid != pid by {
                    if k < last {
                        assert(rest[k].pid != pid);
                    }
                }
            }
        }
    }
}

proof fn lemma_identity_for(rows: Seq<ProcessRow>, pid: u32)
    ensures
        identity_for(rows, pid) is None <==> forall|k: int| 0 <= k < rows.len() ==> (#[trigger] rows[k]).pid != pid,
        identity_for(rows, pid) matches Some(id) ==> exists|k: int|
            0 <= k < rows.len() && (#[trigger] rows[k]).pid == pid && rows[k].id@ == id && forall|m: int|
                k < m < rows.len() ==> (#[trigger] rows[m]).pid != pid,
    decreases rows.len(),
{
    if rows.len() > 0 {
        let rest = rows.drop_last();
        let last = rows.len() - 1;
        lemma_identity_for(rest, pid);
        assert(rows[last] == rows.last());
        assert forall|k: int| 0 <= k < rest.len() implies #[trigger] rows[k] == rest[k] by {}
        if rows.last().pid != pid {
            if let Some(id) = identity_for(rows, pid) {
                let k = choose|k: int|
                    0 <= k < rest.len() && (#[trigger] rest[k]).pid == pid && rest[k].id@ == id && forall|m: int|
                        k < m < rest.len() ==> (#[trigger] rest[m]).pid != pid;
                assert(rows[k] == rest[k]);
                assert forall|m: int| k < m < rows.len() implies (#[trigger] rows[m]).pid != pid by {
                    if m < last {
                        assert(rest[m].pid != pid);
                    }
                }
            } else {
                assert forall|k: int| 0 <= k < rows.len() implies (#[trigger] rows[k]).pid != pid by {
                    if k < last {
                        assert(rest[k].pid != pid);
                    }
                }
            }
        }
    }
}

/// Who a socket is attributed to. A PID the process scan did not enumerate
/// is reported as `(exited)`, with no identity. An enumerated PID is named
/// after the process the scan listed for it (the later listing when it
/// appears twice), and it carries an identity exactly when one of this
/// tick's rows has that PID: the identity that row holds (again the later
/// one). No identity is ever made up for a PID without a row.
pub proof fn law_sockets_are_attributed_safely(processes: Seq<RawProcess>, rows: Seq<ProcessRow>, pid: u32)
    ensures
        (forall|k: int| 0 <= k < processes.len() ==> (#[trigger] processes[k]).pid != pid) ==> spec_owner(
            processes,
            rows,
            pid,
        ) == ("(exited)"@, None::<Seq<char>>),
        (exists|k: int| 0 <= k < processes.len() && (#[trigger] processes[k]).pid == pid) ==> exists|k: int|
            0 <= k < processes.len() && (#[trigger] processes[k]).pid == pid && spec_owner(processes, rows, pid).0
                == processes[k].name@ && forall|m: int| k < m < processes.len() ==> (#[trigger] processes[m]).pid != pid,
        (exists|k: int| 0 <= k < processes.len() && (#[trigger] processes[k]).pid == pid) ==> ((spec_owner(
            processes,
            rows,
            pid,
        ).1 is Some) <==> exists|r: int| 0 <= r < rows.len() && (#[trigger] rows[r]).pid == pid),
        spec_owner(processes, rows, pid).1 matches Some(id) ==> exists|r: int|
            0 <= r < rows.len() && (#[trigger] rows[r]).pid == pid && rows[r].id@ == id && forall|m: int|
                r < m < rows.len() ==> (#[trigger] rows[m]).pid != pid,
{
    lemma_name_for(processes, pid);
    lemma_identity_for(rows, pid);
}

} // verus!
