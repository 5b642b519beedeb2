//! Port rows.

use std::collections::HashSet;

use localdocks::assoc::Assoc;
use localdocks::logic::ports::{format_address, map_ports, IpAddress, RawEndpoint};
use localdocks::logic::process::{ProcessProbe, RawProcess};
use localdocks::models::{PortState, ProcessRow, ProcessStatus, Protocol};

/// An IPv4 address from its octets.
fn addr4(a: u8, b: u8, c: u8, d: u8) -> IpAddress {
    IpAddress::V4(u32::from_be_bytes([a, b, c, d]))
}

fn addr4a(o: [u8; 4]) -> IpAddress {
    IpAddress::V4(u32::from_be_bytes(o))
}

/// An IPv6 address from its text: hex groups, one `::`, and an optional
/// dotted IPv4 tail.
fn addr6(s: &str) -> IpAddress {
    fn groups(part: &str) -> Vec<u16> {
        let mut out = Vec::new();
        for g in part.split(':').filter(|g| !g.is_empty()) {
            if g.contains('.') {
                let o: Vec<u16> = g.split('.').map(|x| x.parse::<u16>().unwrap()).collect();
                out.push((o[0] << 8) | o[1]);
                out.push((o[2] << 8) | o[3]);
            } else {
                out.push(u16::from_str_radix(g, 16).unwrap());
            }
        }
        out
    }
    let (head, tail) = match s.find("::") {
        Some(i) => (groups(&s[..i]), groups(&s[i + 2..])),
        None => (groups(s), Vec::new()),
    };
    let mut all = head.clone();
    all.resize(8 - tail.len(), 0);
    all.extend(tail);
    assert_eq!(all.len(), 8, "{s} is not an IPv6 address");
    IpAddress::V6(all.iter().fold(0u128, |acc, g| (acc << 16) | *g as u128))
}



fn fmt(a: IpAddress, scope_id: u32) -> String {
    format_address(a, scope_id)
}

/// No service labels: the join has not run.
fn no_labels() -> Assoc<String> {
    Assoc::new()
}

fn endpoint(protocol: Protocol, address: IpAddress, port: u16, pid: u32) -> RawEndpoint {
    RawEndpoint {
        protocol,
        address,
        scope_id: 0,
        port,
        pid,
    }
}

fn v4(a: [u8; 4], port: u16, pid: u32) -> RawEndpoint {
    endpoint(Protocol::Tcp, addr4a(a), port, pid)
}

fn v6(s: &str, port: u16, pid: u32) -> RawEndpoint {
    endpoint(
        Protocol::Tcp,
        addr6(s),
        port,
        pid,
    )
}

fn raw_process(pid: u32, name: &str) -> RawProcess {
    RawProcess {
        pid,
        parent_pid: 4,
        name: name.into(),
        thread_count: 3,
        probe: ProcessProbe::AccessDenied,
    }
}

fn row(pid: u32, name: &str, started_at: &str) -> ProcessRow {
    ProcessRow {
        id: localdocks::models::make_process_id(pid, started_at),
        pid,
        parent_pid: 4,
        name: name.into(),
        cpu_hundredths: 0,
        memory_bytes: 1024,
        thread_count: 3,
        started_at: started_at.into(),
        uptime_millis: 1000,
        status: ProcessStatus::Running,
        is_service: false,
    }
}

const T: &str = "2026-08-28T09:00:00.000Z";

// ------------------------------------------------------------ formatting

#[test]
fn ipv4_addresses_render_plain() {
    assert_eq!(
        fmt(addr4(127, 0, 0, 1), 0),
        "127.0.0.1"
    );
    assert_eq!(
        fmt(addr4(192, 168, 68, 103), 0),
        "192.168.68.103"
    );
}

#[test]
fn ipv6_addresses_render_bracketed() {
    // The brackets are load-bearing: Ports.tsx uses them to tell the
    // families apart.
    assert_eq!(
        fmt(addr6("::1"), 0),
        "[::1]"
    );
    assert_eq!(
        fmt(addr6("fe80::1"), 0),
        "[fe80::1]"
    );
    assert!(fmt(addr6("::1"), 0).starts_with('['));
}

#[test]
fn wildcard_addresses_are_rendered_as_wildcards_not_as_localhost() {
    // A wildcard bind is reachable from the network. Calling it localhost
    // would understate exposure, which is the opposite of useful.
    assert_eq!(
        fmt(addr4(0, 0, 0, 0), 0),
        "0.0.0.0"
    );
    assert_eq!(fmt(addr6("::"), 0), "[::]");
}

#[test]
fn a_link_local_address_keeps_its_scope() {
    // Two interfaces can carry the same fe80:: address; the scope is what
    // keeps them apart.
    assert_eq!(
        fmt(addr6("fe80::7495:bc12:fb98:1161"), 17),
        "[fe80::7495:bc12:fb98:1161%17]"
    );
}

#[test]
fn ipv6_output_is_never_malformed() {
    for s in [
        "::",
        "::1",
        "fe80::1",
        "2001:db8::8a2e:370:7334",
        "::ffff:127.0.0.1",
    ] {
        for scope in [0u32, 17] {
            let out = fmt(addr6(s), scope);
            assert!(out.starts_with('['), "{out} lost its opening bracket");
            assert!(out.ends_with(']'), "{out} lost its closing bracket");
            assert_eq!(out.matches('[').count(), 1, "{out} has stray brackets");
            assert_eq!(out.matches(']').count(), 1, "{out} has stray brackets");
        }
    }
}

// -------------------------------------------------------------- identity

#[test]
fn the_same_port_on_different_addresses_stays_several_rows() {
    // The case this attribution exists for: one dev server,
    // three endpoints. Collapsing them by port is the bug.
    let endpoints = vec![
        v4([127, 0, 0, 1], 5173, 8420),
        v6("::1", 5173, 8420),
        v4([0, 0, 0, 0], 5173, 8420),
        v6("::", 5173, 8420),
    ];
    let ports = map_ports(&endpoints, &[raw_process(8420, "node.exe")], &[], &no_labels());

    assert_eq!(ports.len(), 4);
    let addresses: Vec<_> = ports.iter().map(|p| p.address.as_str()).collect();
    assert!(addresses.contains(&"127.0.0.1"));
    assert!(addresses.contains(&"[::1]"));
    assert!(addresses.contains(&"0.0.0.0"));
    assert!(addresses.contains(&"[::]"));
    assert!(ports.iter().all(|p| p.port == 5173));
}

#[test]
fn the_same_port_on_different_protocols_stays_two_rows() {
    let endpoints = vec![
        v4([127, 0, 0, 1], 8000, 1),
        endpoint(Protocol::Udp, addr4(127, 0, 0, 1), 8000, 1),
    ];
    let ports = map_ports(&endpoints, &[raw_process(1, "python.exe")], &[], &no_labels());

    assert_eq!(ports.len(), 2);
    assert_eq!(ports[0].protocol, Protocol::Tcp, "TCP sorts first");
    assert_eq!(ports[1].protocol, Protocol::Udp);
}

#[test]
fn rows_are_unique_on_the_key_the_frontend_renders_with() {
    // Ports.tsx keys on `${protocol}-${address}-${port}-${pid}`.
    let endpoints = vec![
        v4([127, 0, 0, 1], 5173, 8420),
        v6("::1", 5173, 8420),
        v4([127, 0, 0, 1], 5174, 8420),
        endpoint(Protocol::Udp, addr4(127, 0, 0, 1), 5173, 8420),
    ];
    let ports = map_ports(&endpoints, &[raw_process(8420, "node.exe")], &[], &no_labels());

    let mut keys = HashSet::new();
    for p in &ports {
        let key = format!("{:?}-{}-{}-{}", p.protocol, p.address, p.port, p.pid);
        assert!(keys.insert(key), "duplicate React key for {p:?}");
    }
    assert_eq!(keys.len(), 4);
}

#[test]
fn one_process_binding_a_multicast_port_twice_yields_one_row() {
    // Real behaviour, not hypothetical: WS-Discovery binds 0.0.0.0:3702
    // twice from a single PID via SO_REUSEADDR, and the extended table
    // reports both with every field identical. The dropped row carries
    // nothing the kept one lacks.
    let e = endpoint(Protocol::Udp, addr4(0, 0, 0, 0), 3702, 6872);
    let ports = map_ports(&[e.clone(), e], &[raw_process(6872, "svchost.exe")], &[], &no_labels());

    assert_eq!(ports.len(), 1);
    assert_eq!(ports[0].port, 3702);
    assert_eq!(ports[0].address, "0.0.0.0");
}

#[test]
fn two_processes_sharing_a_multicast_port_stay_two_rows() {
    // The other half of the same rule. These differ in PID and in process
    // name, so collapsing them would hide a real socket owner.
    let a = endpoint(Protocol::Udp, addr4(0, 0, 0, 0), 5353, 100);
    let b = endpoint(Protocol::Udp, addr4(0, 0, 0, 0), 5353, 200);
    let ports = map_ports(
        &[a, b],
        &[
            raw_process(100, "mdns-a.exe"),
            raw_process(200, "mdns-b.exe"),
        ],
        &[],
        &no_labels(),
    );

    assert_eq!(ports.len(), 2);
    let names: HashSet<_> = ports.iter().map(|p| p.process_name.as_str()).collect();
    assert_eq!(names.len(), 2, "both owners must be visible");
}

#[test]
fn a_link_local_socket_on_two_interfaces_is_two_rows() {
    let mut a = v6("fe80::1", 5173, 8420);
    a.scope_id = 12;
    let mut b = v6("fe80::1", 5173, 8420);
    b.scope_id = 17;

    let ports = map_ports(&[a, b], &[raw_process(8420, "node.exe")], &[], &no_labels());
    assert_eq!(ports.len(), 2);
    assert_ne!(ports[0].address, ports[1].address);
}

#[test]
fn rows_come_out_in_a_stable_order() {
    let endpoints = vec![
        v6("::1", 8000, 1),
        v4([127, 0, 0, 1], 5173, 1),
        v4([127, 0, 0, 1], 8000, 1),
        v6("::1", 5173, 1),
    ];
    let ports = map_ports(&endpoints, &[raw_process(1, "node.exe")], &[], &no_labels());
    let order: Vec<_> = ports.iter().map(|p| (p.port, p.address.as_str())).collect();

    // By port, then IPv4 before IPv6 — the order the Ports screen also
    // uses, so the default view needs no re-sorting to look sensible.
    assert_eq!(
        order,
        vec![
            (5173, "127.0.0.1"),
            (5173, "[::1]"),
            (8000, "127.0.0.1"),
            (8000, "[::1]"),
        ]
    );
}

// ----------------------------------------------------------- attribution

#[test]
fn a_known_process_gives_the_row_a_usable_identity() {
    let ports = map_ports(
        &[v4([127, 0, 0, 1], 5173, 8420)],
        &[raw_process(8420, "node.exe")],
        &[row(8420, "node.exe", T)],
        &no_labels(),
    );

    assert_eq!(ports[0].pid, 8420);
    assert_eq!(ports[0].process_name, "node.exe");
    assert_eq!(
        ports[0].process_id.as_deref(),
        Some("8420-2026-08-28T09:00:00.000Z")
    );
}

#[test]
fn a_protected_process_is_named_but_gets_no_identity() {
    // The common case on Windows: svchost owns the socket, is enumerable,
    // but cannot be opened unelevated. The name is real; the identity is
    // not available, so the row must stay informational.
    let ports = map_ports(
        &[v4([0, 0, 0, 0], 135, 1160)],
        &[raw_process(1160, "svchost.exe")],
        &[], // not in rows: its creation time was unreadable
        &no_labels(),
    );

    assert_eq!(ports[0].process_name, "svchost.exe");
    assert_eq!(ports[0].process_id, None, "must not be actionable");
    assert_eq!(
        ports[0].pid, 1160,
        "the PID Windows reported is still shown"
    );
}

#[test]
fn a_socket_whose_process_vanished_is_kept_as_informational() {
    // The scan is not atomic. The socket was really bound; the process is
    // really gone. Dropping the row would hide a real socket.
    let ports = map_ports(&[v4([127, 0, 0, 1], 5173, 9999)], &[], &[], &no_labels());

    assert_eq!(ports.len(), 1);
    assert_eq!(ports[0].pid, 9999);
    assert_eq!(ports[0].process_id, None);
    assert_eq!(ports[0].process_name, "(exited)");
}

#[test]
fn an_identity_is_never_synthesised_from_a_pid_alone() {
    // The whole safety model in one assertion: a PID with no readable
    // creation time must not produce `{pid}-{something}`.
    let ports = map_ports(
        &[v4([127, 0, 0, 1], 5173, 8420)],
        &[raw_process(8420, "node.exe")],
        &[],
        &no_labels(),
    );
    assert!(ports[0].process_id.is_none());
}

#[test]
fn a_reused_pid_attributes_to_the_process_that_is_there_now() {
    // The port table gives a PID; the identity comes from this tick's
    // process rows, so a recycled PID resolves to the current occupant
    // rather than to whatever used to hold it.
    let ports = map_ports(
        &[v4([127, 0, 0, 1], 5173, 8420)],
        &[raw_process(8420, "python.exe")],
        &[row(8420, "python.exe", "2026-08-28T10:00:00.000Z")],
        &no_labels(),
    );
    assert_eq!(
        ports[0].process_id.as_deref(),
        Some("8420-2026-08-28T10:00:00.000Z")
    );
    assert_eq!(ports[0].process_name, "python.exe");
}

#[test]
fn several_sockets_of_one_process_all_carry_the_same_identity() {
    let ports = map_ports(
        &[
            v4([127, 0, 0, 1], 5173, 8420),
            v6("::1", 5173, 8420),
            v4([127, 0, 0, 1], 24678, 8420),
        ],
        &[raw_process(8420, "node.exe")],
        &[row(8420, "node.exe", T)],
        &no_labels(),
    );

    let ids: HashSet<_> = ports.iter().map(|p| p.process_id.clone()).collect();
    assert_eq!(ids.len(), 1, "one process, one identity across its sockets");
}

// ------------------------------------------------------ contract details

#[test]
fn protocols_map_straight_through() {
    let ports = map_ports(
        &[
            v4([127, 0, 0, 1], 1, 1),
            endpoint(Protocol::Udp, addr4(127, 0, 0, 1), 2, 1),
        ],
        &[raw_process(1, "x.exe")],
        &[],
        &no_labels(),
    );
    assert_eq!(ports[0].protocol, Protocol::Tcp);
    assert_eq!(ports[1].protocol, Protocol::Udp);
}

#[test]
fn every_row_reports_the_listening_state() {
    let ports = map_ports(
        &[v4([127, 0, 0, 1], 5173, 1)],
        &[raw_process(1, "node.exe")],
        &[],
        &no_labels(),
    );
    assert_eq!(ports[0].state, PortState::Listening);
}

#[test]
fn no_row_claims_a_service_label_while_the_service_model_is_unimplemented() {
    let ports = map_ports(
        &[v4([127, 0, 0, 1], 5173, 1)],
        &[raw_process(1, "node.exe")],
        &[row(1, "node.exe", T)],
        &no_labels(),
    );
    assert!(ports[0].service_label.is_none());
}

#[test]
fn an_empty_scan_maps_to_no_rows() {
    assert!(map_ports(&[], &[], &[], &no_labels()).is_empty());
}
