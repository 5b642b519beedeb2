//! The service join.
use std::collections::HashSet;

use localdocks::logic::ports::{IpAddress, RawEndpoint};
use localdocks::logic::service::{executable_stem, join_services, ServiceJoin};
use localdocks::models::{make_process_id, ProcessRow, ProcessStatus, Protocol, ServiceStatus};

/// An IPv4 address from its octets.
fn addr4(a: u8, b: u8, c: u8, d: u8) -> IpAddress {
    IpAddress::V4(u32::from_be_bytes([a, b, c, d]))
}

fn addr4a(o: [u8; 4]) -> IpAddress {
    IpAddress::V4(u32::from_be_bytes(o))
}

/// An IPv6 address from its text: hex groups, one `::`, and an optional
/// dotted IPv4 tail.
fn addr6(s: &str) -> IpAddress {
    fn groups(part: &str) -> Vec<u16> {
        let mut out = Vec::new();
        for g in part.split(':').filter(|g| !g.is_empty()) {
            if g.contains('.') {
                let o: Vec<u16> = g.split('.').map(|x| x.parse::<u16>().unwrap()).collect();
                out.push((o[0] << 8) | o[1]);
                out.push((o[2] << 8) | o[3]);
            } else {
                out.push(u16::from_str_radix(g, 16).unwrap());
            }
        }
        out
    }
    let (head, tail) = match s.find("::") {
        Some(i) => (groups(&s[..i]), groups(&s[i + 2..])),
        None => (groups(s), Vec::new()),
    };
    let mut all = head.clone();
    all.resize(8 - tail.len(), 0);
    all.extend(tail);
    assert_eq!(all.len(), 8, "{s} is not an IPv6 address");
    IpAddress::V6(all.iter().fold(0u128, |acc, g| (acc << 16) | *g as u128))
}



const T: &str = "2026-08-28T09:00:00.000Z";

fn row(pid: u32, name: &str) -> ProcessRow {
    ProcessRow {
        id: make_process_id(pid, T),
        pid,
        parent_pid: 4,
        name: name.into(),
        cpu_hundredths: 150,
        memory_bytes: 148_897_792,
        thread_count: 18,
        started_at: T.into(),
        uptime_millis: 4_342_000,
        status: ProcessStatus::Running,
        is_service: false,
    }
}

fn socket(protocol: Protocol, address: IpAddress, port: u16, pid: u32) -> RawEndpoint {
    RawEndpoint {
        protocol,
        address,
        scope_id: 0,
        port,
        pid,
    }
}

fn tcp4(a: [u8; 4], port: u16, pid: u32) -> RawEndpoint {
    socket(Protocol::Tcp, addr4a(a), port, pid)
}

fn tcp6(s: &str, port: u16, pid: u32) -> RawEndpoint {
    socket(
        Protocol::Tcp,
        addr6(s),
        port,
        pid,
    )
}

// ------------------------------------------------------------- predicate

#[test]
fn a_process_with_no_sockets_is_not_a_service() {
    let j = join_services(&[row(8420, "node.exe")], &[]);
    assert!(j.services.is_empty());
    assert!(!j.is_service(&make_process_id(8420, T)));
}

#[test]
fn a_process_with_one_qualifying_socket_is_a_service() {
    let j = join_services(
        &[row(8420, "node.exe")],
        &[tcp4([127, 0, 0, 1], 5173, 8420)],
    );
    assert_eq!(j.services.len(), 1);
    assert!(j.is_service(&make_process_id(8420, T)));
}

#[test]
fn a_process_holding_only_system_ports_is_not_a_service() {
    // Ports below 1024 belong to the machine's own infrastructure.
    let j = join_services(
        &[row(4, "System")],
        &[
            tcp4([0, 0, 0, 0], 135, 4),
            tcp4([0, 0, 0, 0], 445, 4),
            socket(Protocol::Udp, addr4(0, 0, 0, 0), 137, 4),
        ],
    );
    assert!(j.services.is_empty());
}

#[test]
fn one_qualifying_port_is_enough_even_beside_system_ports() {
    let j = join_services(
        &[row(8420, "node.exe")],
        &[
            tcp4([0, 0, 0, 0], 80, 8420),
            tcp4([127, 0, 0, 1], 5173, 8420),
        ],
    );
    assert_eq!(j.services.len(), 1);
    // Both sockets are listed: the predicate decides membership, it does
    // not filter the description.
    assert_eq!(j.services[0].endpoints.len(), 2);
}

#[test]
fn the_system_port_boundary_is_1024() {
    let just_below = join_services(&[row(1, "a.exe")], &[tcp4([127, 0, 0, 1], 1023, 1)]);
    let just_above = join_services(&[row(1, "a.exe")], &[tcp4([127, 0, 0, 1], 1024, 1)]);
    assert!(just_below.services.is_empty());
    assert_eq!(just_above.services.len(), 1);
}

#[test]
fn a_socket_owned_by_a_process_we_have_no_row_for_creates_no_service() {
    // No row means the app could not open the process, which unelevated
    // means it is not ours. Ownership is enforced by the input.
    let j = join_services(&[], &[tcp4([0, 0, 0, 0], 5173, 1160)]);
    assert!(j.services.is_empty());
    assert!(j.labels().len() == 0);
}

// -------------------------------------------------------------- grouping

#[test]
fn several_sockets_of_one_process_become_one_service() {
    let j = join_services(
        &[row(8420, "node.exe")],
        &[
            tcp4([127, 0, 0, 1], 5173, 8420),
            tcp4([127, 0, 0, 1], 24678, 8420),
            socket(Protocol::Udp, addr4(127, 0, 0, 1), 5353, 8420),
        ],
    );
    assert_eq!(j.services.len(), 1, "one process is one service");
    assert_eq!(j.services[0].endpoints.len(), 3);
}

#[test]
fn dual_stack_sockets_group_under_one_service_and_stay_separate_endpoints() {
    // The case the service model is built around.
    let j = join_services(
        &[row(8420, "node.exe")],
        &[
            tcp4([127, 0, 0, 1], 5173, 8420),
            tcp6("::1", 5173, 8420),
            tcp4([0, 0, 0, 0], 5173, 8420),
            tcp6("::", 5173, 8420),
        ],
    );

    assert_eq!(j.services.len(), 1);
    let e = &j.services[0].endpoints;
    assert_eq!(e.len(), 4, "four sockets stay four endpoints");
    assert!(e.iter().all(|x| x.port == 5173));
    let addresses: HashSet<_> = e.iter().map(|x| x.address.as_str()).collect();
    assert_eq!(addresses.len(), 4, "not deduplicated by port");
    assert!(addresses.contains("127.0.0.1"));
    assert!(addresses.contains("[::1]"));
    assert!(addresses.contains("0.0.0.0"));
    assert!(addresses.contains("[::]"));
}

#[test]
fn two_processes_sharing_a_port_become_two_services() {
    // Windows permits this for multicast UDP with SO_REUSEADDR.
    let j = join_services(
        &[row(100, "a.exe"), row(200, "b.exe")],
        &[
            socket(Protocol::Udp, addr4(0, 0, 0, 0), 5353, 100),
            socket(Protocol::Udp, addr4(0, 0, 0, 0), 5353, 200),
        ],
    );
    assert_eq!(j.services.len(), 2);
    assert_ne!(j.services[0].id, j.services[1].id);
}

#[test]
fn every_endpoint_on_a_service_belongs_to_that_service_s_process() {
    let j = join_services(
        &[row(100, "a.exe"), row(200, "b.exe")],
        &[
            tcp4([127, 0, 0, 1], 5173, 100),
            tcp4([127, 0, 0, 1], 8000, 200),
            tcp6("::1", 5173, 100),
        ],
    );

    assert_eq!(j.services.len(), 2);
    let a = j.services.iter().find(|s| s.pid == 100).unwrap();
    let b = j.services.iter().find(|s| s.pid == 200).unwrap();
    assert_eq!(a.endpoints.len(), 2);
    assert_eq!(b.endpoints.len(), 1);
    assert!(a.endpoints.iter().all(|e| e.port == 5173));
    assert_eq!(b.endpoints[0].port, 8000);
}

#[test]
fn services_are_never_duplicated_and_map_one_to_one_onto_processes() {
    let rows: Vec<_> = (1..25u32).map(|pid| row(pid, "node.exe")).collect();
    let sockets: Vec<_> = (1..25u32)
        .flat_map(|pid| {
            [
                tcp4([127, 0, 0, 1], 5000 + pid as u16, pid),
                tcp6("::1", 5000 + pid as u16, pid),
            ]
        })
        .collect();

    let j = join_services(&rows, &sockets);

    assert_eq!(j.services.len(), 24);
    let ids: HashSet<_> = j.services.iter().map(|s| s.id.clone()).collect();
    assert_eq!(ids.len(), 24, "no duplicate services");
    for s in &j.services {
        let matching = rows.iter().filter(|r| r.id == s.id).count();
        assert_eq!(matching, 1, "each service maps to exactly one process");
    }
}

// -------------------------------------------------------------- identity

#[test]
fn service_identity_is_the_process_identity_and_nothing_new() {
    let r = row(8420, "node.exe");
    let j = join_services(
        std::slice::from_ref(&r),
        &[tcp4([127, 0, 0, 1], 5173, 8420)],
    );
    let s = &j.services[0];

    assert_eq!(s.id, r.id);
    assert_eq!(s.id, make_process_id(s.pid, &s.started_at));
}

#[test]
fn a_restarted_process_is_a_different_service() {
    // Same PID, later start: a different identity, so a stale row can never
    // point at the new process.
    let mut restarted = row(8420, "node.exe");
    restarted.started_at = "2026-08-28T10:00:00.000Z".into();
    restarted.id = make_process_id(8420, &restarted.started_at);

    let first = join_services(
        &[row(8420, "node.exe")],
        &[tcp4([127, 0, 0, 1], 5173, 8420)],
    );
    let second = join_services(&[restarted], &[tcp4([127, 0, 0, 1], 5173, 8420)]);

    assert_ne!(first.services[0].id, second.services[0].id);
}

#[test]
fn process_facts_are_carried_onto_the_service_unchanged() {
    let r = row(8420, "node.exe");
    let j = join_services(
        std::slice::from_ref(&r),
        &[tcp4([127, 0, 0, 1], 5173, 8420)],
    );
    let s = &j.services[0];

    assert_eq!(s.process_name, r.name);
    assert_eq!(s.pid, r.pid);
    assert_eq!(s.parent_pid, r.parent_pid);
    assert_eq!(s.cpu_hundredths, r.cpu_hundredths);
    assert_eq!(s.memory_bytes, r.memory_bytes);
    assert_eq!(s.thread_count, r.thread_count);
    assert_eq!(s.started_at, r.started_at);
    assert_eq!(s.uptime_millis, r.uptime_millis);
    assert_eq!(s.status, ServiceStatus::Running);
    assert!(s.framework.is_none(), "framework detection is V2");
}

// ----------------------------------------------------------------- label

#[test]
fn the_label_is_the_executable_stem_and_the_primary_port() {
    let j = join_services(
        &[row(8420, "node.exe")],
        &[tcp4([127, 0, 0, 1], 5173, 8420)],
    );
    assert_eq!(j.services[0].label, "node:5173");
}

#[test]
fn the_label_uses_the_lowest_port_the_service_holds() {
    // Matching `primaryPort()` in the frontend, so the label agrees with
    // the port the UI shows beside it.
    let j = join_services(
        &[row(8420, "node.exe")],
        &[
            tcp4([127, 0, 0, 1], 24678, 8420),
            tcp4([127, 0, 0, 1], 5173, 8420),
            tcp6("::1", 9229, 8420),
        ],
    );
    assert_eq!(j.services[0].label, "node:5173");
}

#[test]
fn the_label_is_deterministic_and_independent_of_what_else_is_running() {
    let alone = join_services(&[row(1, "node.exe")], &[tcp4([127, 0, 0, 1], 5173, 1)]);
    let crowded = join_services(
        &[row(1, "node.exe"), row(2, "node.exe"), row(3, "python.exe")],
        &[
            tcp4([127, 0, 0, 1], 5173, 1),
            tcp4([127, 0, 0, 1], 3000, 2),
            tcp4([127, 0, 0, 1], 8000, 3),
        ],
    );
    let same = crowded.services.iter().find(|s| s.pid == 1).unwrap();
    assert_eq!(alone.services[0].label, same.label);
    assert_eq!(same.label, "node:5173");
}

#[test]
fn repeating_the_join_gives_byte_identical_labels_and_ordering() {
    let rows = [row(2, "b.exe"), row(1, "a.exe")];
    let sockets = [
        tcp6("::1", 5173, 1),
        tcp4([127, 0, 0, 1], 8000, 2),
        tcp4([127, 0, 0, 1], 5173, 1),
    ];
    let a = join_services(&rows, &sockets);
    let b = join_services(&rows, &sockets);

    let shape = |j: &ServiceJoin| {
        j.services
            .iter()
            .map(|s| {
                (
                    s.id.clone(),
                    s.label.clone(),
                    s.endpoints
                        .iter()
                        .map(|e| (e.port, e.address.clone()))
                        .collect::<Vec<_>>(),
                )
            })
            .collect::<Vec<_>>()
    };
    assert_eq!(shape(&a), shape(&b));
}

#[test]
fn endpoint_order_is_by_port_then_ipv4_before_ipv6() {
    let j = join_services(
        &[row(1, "node.exe")],
        &[
            tcp6("::1", 8000, 1),
            tcp6("::1", 5173, 1),
            tcp4([127, 0, 0, 1], 8000, 1),
            tcp4([127, 0, 0, 1], 5173, 1),
        ],
    );
    let order: Vec<_> = j.services[0]
        .endpoints
        .iter()
        .map(|e| (e.port, e.address.as_str()))
        .collect();
    assert_eq!(
        order,
        vec![
            (5173, "127.0.0.1"),
            (5173, "[::1]"),
            (8000, "127.0.0.1"),
            (8000, "[::1]"),
        ]
    );
}

#[test]
fn an_executable_stem_drops_only_a_trailing_exe() {
    assert_eq!(executable_stem("node.exe"), "node");
    assert_eq!(executable_stem("NODE.EXE"), "NODE");
    assert_eq!(executable_stem("redis-server.exe"), "redis-server");
    assert_eq!(executable_stem("System"), "System");
    assert_eq!(executable_stem("my.app.exe"), "my.app");
    // Not a stem: dropping these would leave nothing to read.
    assert_eq!(executable_stem(".exe"), ".exe");
    assert_eq!(executable_stem(""), "unknown");
    assert_eq!(executable_stem("   "), "unknown");
}

#[test]
fn a_process_with_an_unreadable_name_still_gets_a_findable_label() {
    let j = join_services(&[row(8420, "")], &[tcp4([127, 0, 0, 1], 5173, 8420)]);
    assert_eq!(j.services[0].label, "unknown:5173");
}

// ----------------------------------------------------------- the lookups

#[test]
fn labels_are_offered_for_exactly_the_processes_that_became_services() {
    let j = join_services(
        &[row(1, "node.exe"), row(2, "idle.exe")],
        &[tcp4([127, 0, 0, 1], 5173, 1)],
    );

    assert_eq!(j.labels().len(), 1);
    assert_eq!(
        j.labels().get(&make_process_id(1, T)).map(String::as_str),
        Some("node:5173")
    );
    assert!(j.labels().get(&make_process_id(2, T)).is_none());
}

#[test]
fn is_service_answers_for_both_halves() {
    let j = join_services(
        &[row(1, "node.exe"), row(2, "idle.exe")],
        &[tcp4([127, 0, 0, 1], 5173, 1)],
    );
    assert!(j.is_service(&make_process_id(1, T)));
    assert!(!j.is_service(&make_process_id(2, T)));
    assert!(!j.is_service(&make_process_id(999, T)));
}

#[test]
fn every_service_label_matches_the_label_offered_for_its_identity() {
    let j = join_services(
        &[row(1, "node.exe"), row(2, "python.exe")],
        &[tcp4([127, 0, 0, 1], 5173, 1), tcp4([127, 0, 0, 1], 8000, 2)],
    );
    for s in &j.services {
        assert_eq!(j.labels().get(&s.id), Some(&s.label));
    }
}

#[test]
fn an_empty_tick_joins_to_nothing() {
    let j = join_services(&[], &[]);
    assert!(j.services.is_empty());
    assert!(j.labels().len() == 0);
}

#[test]
fn any_process_with_a_qualifying_socket_is_a_service_whatever_it_is_called() {
    let rows = [row(10, "chrome.exe"), row(11, ""), row(12, "mystery")];
    let sockets = [
        tcp4([127, 0, 0, 1], 9222, 10),
        tcp4([0, 0, 0, 0], 1024, 11),
        tcp4([127, 0, 0, 1], 65535, 12),
    ];
    let j = join_services(&rows, &sockets);
    assert_eq!(j.services.len(), 3);
    for pid in [10, 11, 12] {
        assert!(j.is_service(&make_process_id(pid, T)), "pid {pid}");
    }
}
