//! The join: a process plus its sockets becomes a service.
//!
//! A service is a process holding at least one listening socket on a
//! non-system port, owned by the current user. Ownership is already in the
//! input: `rows` holds exactly the processes whose creation time could be
//! read, which unelevated means the user's own. Nothing here looks at what a
//! program is called to decide what it is.
use vstd::prelude::*;

use crate::assoc::Assoc;
use crate::logic::ports::{format_address, socket_goes_before, socket_precedes, lemma_socket_order, spec_format_address, RawEndpoint};
use crate::models::{Endpoint, ProcessRow, Protocol, Relevance, Service, ServiceStatus};
use crate::order::{
    is_stable_arrangement, is_stable_sort_of, law_text_order_is_lexical, lemma_arrangement_is_onto, lemma_text_order,
    lexically_before, sort_stably, text_less, text_lt, Ranked,
};
use crate::text::{chars_of, decimal, eq_ignore_case, extend_chars, lower_seq, push_decimal, string_of, trim, trim_chars};

verus! {

/// The first port outside the IANA system range. 0-1023 belong to the
/// machine's own infrastructure, not to something a developer started.
pub const FIRST_NON_SYSTEM_PORT: u16 = 1024;

/// Services, plus the identity-to-label lookup the rest of the tick uses to
/// point at them.
pub struct ServiceJoin {
    pub services: Vec<Service>,
    /// Identity -> label, for exactly the processes that became services.
    pub labels: Assoc<String>,
}

impl ServiceJoin {
    pub open spec fn wf(&self) -> bool {
        self.labels.wf()
    }

    /// Identity -> label.
    pub open spec fn label_map(&self) -> Map<Seq<char>, String> {
        self.labels.view()
    }

    /// Identity -> label, for the port rows' service label.
    pub fn labels(&self) -> (r: &Assoc<String>)
        requires
            self.wf(),
        ensures
            r.wf(),
            r.view() == self.label_map(),
    {
        &self.labels
    }

    /// Whether this process produced a service.
    pub fn is_service(&self, id: &str) -> (r: bool)
        requires
            self.wf(),
        ensures
            r == self.label_map().contains_key(id@),
    {
        self.labels.contains_key(id)
    }
}

/// A port outside the range reserved for system services.
pub open spec fn spec_is_non_system(port: u16) -> bool {
    port >= FIRST_NON_SYSTEM_PORT
}

pub fn is_non_system(port: u16) -> (r: bool)
    ensures
        r == spec_is_non_system(port),
{
    port >= FIRST_NON_SYSTEM_PORT
}

// ------------------------------------------------------------------ endpoints

/// `ep` is the endpoint for socket `e`.
pub open spec fn endpoint_for(ep: Endpoint, e: RawEndpoint) -> bool {
    &&& ep.protocol == e.protocol
    &&& ep.address@ == spec_format_address(e.address, e.scope_id)
    &&& ep.port == e.port
}

pub open spec fn same_endpoint(a: Endpoint, b: Endpoint) -> bool {
    a.protocol == b.protocol && a.address@ == b.address@ && a.port == b.port
}

/// Consecutive repeats removed, the first of each run kept.
pub open spec fn dedup_adjacent(s: Seq<Endpoint>) -> Seq<Endpoint>
    decreases s.len(),
{
    if s.len() == 0 {
        seq![]
    } else {
        let d = dedup_adjacent(s.drop_last());
        if d.len() > 0 && same_endpoint(d.last(), s.last()) {
            d
        } else {
            d.push(s.last())
        }
    }
}

/// The sockets of one process, in order.
pub open spec fn owned_by(endpoints: Seq<RawEndpoint>, pid: u32) -> Seq<RawEndpoint> {
    endpoints.filter(|e: RawEndpoint| e.pid == pid)
}

/// `eps` lists the sockets `owned` as endpoints: in socket order, one per
/// distinct `(protocol, address, port)`.
pub open spec fn endpoints_for(eps: Seq<Endpoint>, owned: Seq<RawEndpoint>) -> bool {
    exists|mapped: Seq<Endpoint>, sorted: Seq<Endpoint>|
        {
            &&& mapped.len() == owned.len()
            &&& forall|i: int| 0 <= i < owned.len() ==> endpoint_for(#[trigger] mapped[i], owned[i])
            &&& is_stable_sort_of(sorted, mapped)
            &&& eps == dedup_adjacent(sorted)
        }
}

impl Ranked for Endpoint {
    open spec fn precedes(&self, other: &Self) -> bool {
        socket_precedes(self.port, self.address@, self.protocol, other.port, other.address@, other.protocol)
    }

    proof fn lemma_irreflexive(a: &Self) {
        lemma_socket_order(a.port, a.address@, a.protocol, a.port, a.address@, a.protocol, a.port, a.address@, a.protocol);
    }

    proof fn lemma_transitive(a: &Self, b: &Self, c: &Self) {
        lemma_socket_order(a.port, a.address@, a.protocol, b.port, b.address@, b.protocol, c.port, c.address@, c.protocol);
    }

    proof fn lemma_split(a: &Self, b: &Self, c: &Self) {
        lemma_socket_order(a.port, a.address@, a.protocol, b.port, b.address@, b.protocol, c.port, c.address@, c.protocol);
    }

    fn goes_before(&self, other: &Self) -> (r: bool) {
        socket_goes_before(self.port, &self.address, self.protocol, other.port, &other.address, other.protocol)
    }
}

fn copy_endpoint(e: &Endpoint) -> (r: Endpoint)
    ensures
        r == *e,
{
    Endpoint { protocol: e.protocol, address: e.address.clone(), port: e.port }
}

/// One endpoint per socket a process owns, in socket order, repeats dropped.
///
/// Dual-stack sockets stay separate: `127.0.0.1:5173` and `[::1]:5173` are two
/// endpoints of one service.
pub fn collect_endpoints(owned: &[RawEndpoint]) -> (eps: Vec<Endpoint>)
    ensures
        endpoints_for(eps@, owned@),
{
    let mut mapped: Vec<Endpoint> = Vec::new();
    let mut i: usize = 0;
    while i < owned.len()
        invariant
            i <= owned@.len(),
            mapped@.len() == i,
            forall|k: int| 0 <= k < i ==> endpoint_for(#[trigger] mapped@[k], owned@[k]),
        decreases owned@.len() - i,
    {
        let e = owned[i];
        mapped.push(Endpoint { protocol: e.protocol, address: format_address(e.address, e.scope_id), port: e.port });
        i = i + 1;
    }
    let ghost mapped_seq = mapped@;
    let sorted = sort_stably(mapped);
    let mut out: Vec<Endpoint> = Vec::new();
    let mut j: usize = 0;
    while j < sorted.len()
        invariant
            j <= sorted@.len(),
            out@ == dedup_adjacent(sorted@.take(j as int)),
        decreases sorted@.len() - j,
    {
        let ghost prefix = sorted@.take(j as int + 1);
        proof {
            assert(prefix.drop_last() =~= sorted@.take(j as int));
            assert(prefix.last() == sorted@[j as int]);
        }
        let n = out.len();
        let repeat = n > 0 && out[n - 1].protocol == sorted[j].protocol
            && crate::text::str_eq(out[n - 1].address.as_str(), sorted[j].address.as_str())
            && out[n - 1].port == sorted[j].port;
        if !repeat {
            out.push(copy_endpoint(&sorted[j]));
        }
        j = j + 1;
    }
    proof {
        assert(sorted@.take(sorted@.len() as int) =~= sorted@);
    }
    out
}

// ------------------------------------------------------------------ the label

/// `node.exe` -> `node`, case kept; a name that is blank after trimming is
/// `unknown`, so every service gets a label it can be found by.
pub open spec fn spec_stem(process_name: Seq<char>) -> Seq<char> {
    let t = trim(process_name);
    if t.len() == 0 {
        "unknown"@
    } else if t.len() >= 5 && lower_seq(t.skip(t.len() - 4)) == lower_seq(".exe"@) {
        t.take(t.len() - 4)
    } else {
        t
    }
}

/// `{executable stem}:{lowest port}`; the bare stem for a service with no
/// endpoint, which the join never builds.
pub open spec fn spec_label(process_name: Seq<char>, eps: Seq<Endpoint>) -> Seq<char> {
    if eps.len() > 0 {
        spec_stem(process_name) + seq![':'] + decimal(eps[0].port as nat)
    } else {
        spec_stem(process_name)
    }
}

fn take_chars(s: &[char], end: usize) -> (r: Vec<char>)
    requires
        end <= s@.len(),
    ensures
        r@ == s@.take(end as int),
{
    let mut r: Vec<char> = Vec::new();
    let mut i: usize = 0;
    while i < end
        invariant
            i <= end <= s@.len(),
            r@ == s@.take(i as int),
        decreases end - i,
    {
        r.push(s[i]);
        proof {
            assert(s@.take(i as int).push(s@[i as int]) =~= s@.take(i + 1));
        }
        i = i + 1;
    }
    r
}

/// `node.exe` -> `node`. Only a trailing `.exe`, in any case, is dropped, and
/// only when something is left; the rest of the name is kept as it is.
pub fn executable_stem(process_name: &str) -> (r: String)
    ensures
        r@ == spec_stem(process_name@),
{
    let name = chars_of(process_name);
    let t = trim_chars(name.as_slice());
    let n = t.len();
    if n == 0 {
        let unknown = string_of(&['u', 'n', 'k', 'n', 'o', 'w', 'n']);
        proof {
            reveal_strlit("unknown");
            assert(unknown@ =~= "unknown"@);
        }
        return unknown;
    }
    if n >= 5 {
        let mut tail: Vec<char> = Vec::new();
        tail.push(t[n - 4]);
        tail.push(t[n - 3]);
        tail.push(t[n - 2]);
        tail.push(t[n - 1]);
        let exe = chars_of(".exe");
        proof {
            assert(t@.skip(n - 4) =~= tail@);
        }
        if eq_ignore_case(tail.as_slice(), exe.as_slice()) {
            let head = take_chars(t.as_slice(), n - 4);
            return string_of(head.as_slice());
        }
    }
    string_of(t.as_slice())
}

/// The service label: `{executable stem}:{primary port}`, derived from the
/// service's own name and lowest port only, so it never changes because
/// something else started.
pub fn label_for(process_name: &str, endpoints: &[Endpoint]) -> (r: String)
    ensures
        r@ == spec_label(process_name@, endpoints@),
{
    let stem = executable_stem(process_name);
    if endpoints.len() > 0 {
        let mut out = chars_of(stem.as_str());
        out.push(':');
        push_decimal(&mut out, endpoints[0].port as u64);
        proof {
            assert(out@ =~= spec_label(process_name@, endpoints@));
        }
        string_of(out.as_slice())
    } else {
        stem
    }
}

// ------------------------------------------------------------------ the join

/// Whether a process with this PID holds a socket on a non-system port.
pub open spec fn qualifies(endpoints: Seq<RawEndpoint>, pid: u32) -> bool {
    exists|i: int| 0 <= i < endpoints.len() && #[trigger] endpoints[i].pid == pid && spec_is_non_system(
        endpoints[i].port,
    )
}

/// The rows that become services, in row order.
pub open spec fn service_rows(rows: Seq<ProcessRow>, endpoints: Seq<RawEndpoint>) -> Seq<ProcessRow> {
    rows.filter(|r: ProcessRow| qualifies(endpoints, r.pid))
}

/// `s` is the service built from `row` and the sockets it owns.
pub open spec fn service_for(s: Service, row: ProcessRow, endpoints: Seq<RawEndpoint>) -> bool {
    &&& s.id@ == row.id@
    &&& endpoints_for(s.endpoints@, owned_by(endpoints, row.pid))
    &&& s.label@ == spec_label(row.name@, s.endpoints@)
    &&& s.framework is None
    &&& s.process_name@ == row.name@
    &&& s.pid == row.pid
    &&& s.parent_pid == row.parent_pid
    &&& s.cpu_hundredths == row.cpu_hundredths
    &&& s.memory_bytes == row.memory_bytes
    &&& s.thread_count == row.thread_count
    &&& s.started_at@ == row.started_at@
    &&& s.uptime_millis == row.uptime_millis
    &&& s.status == ServiceStatus::Running
    &&& s.relevance == Relevance::Unknown
    &&& s.relevance_reason@.len() == 0
}

/// The label lookup the services leave behind; a later identity replaces an
/// earlier one.
pub open spec fn labels_of(services: Seq<Service>) -> Map<Seq<char>, String>
    decreases services.len(),
{
    if services.len() == 0 {
        Map::empty()
    } else {
        labels_of(services.drop_last()).insert(services.last().id@, services.last().label)
    }
}

/// Whether some row that becomes a service has identity `id`.
pub open spec fn is_service_id(rows: Seq<ProcessRow>, endpoints: Seq<RawEndpoint>, id: Seq<char>) -> bool {
    exists|i: int|
        0 <= i < service_rows(rows, endpoints).len() && #[trigger] service_rows(rows, endpoints)[i].id@ == id
}

proof fn lemma_labels_of_domain(services: Seq<Service>, id: Seq<char>)
    ensures
        labels_of(services).contains_key(id) <==> exists|i: int|
            0 <= i < services.len() && #[trigger] services[i].id@ == id,
    decreases services.len(),
{
    if services.len() > 0 {
        let rest = services.drop_last();
        lemma_labels_of_domain(rest, id);
        if exists|i: int| 0 <= i < rest.len() && #[trigger] rest[i].id@ == id {
            let i = choose|i: int| 0 <= i < rest.len() && #[trigger] rest[i].id@ == id;
            assert(services[i].id@ == id);
        }
        if exists|i: int| 0 <= i < services.len() && #[trigger] services[i].id@ == id {
            let i = choose|i: int| 0 <= i < services.len() && #[trigger] services[i].id@ == id;
            if i < services.len() - 1 {
                assert(rest[i].id@ == id);
            }
        }
    }
}

impl Ranked for Service {
    open spec fn precedes(&self, other: &Self) -> bool {
        text_lt(self.id@, other.id@)
    }

    proof fn lemma_irreflexive(a: &Self) {
        lemma_text_order(a.id@, a.id@, a.id@);
    }

    proof fn lemma_transitive(a: &Self, b: &Self, c: &Self) {
        lemma_text_order(a.id@, b.id@, c.id@);
    }

    proof fn lemma_split(a: &Self, b: &Self, c: &Self) {
        lemma_text_order(a.id@, c.id@, b.id@);
        lemma_text_order(c.id@, b.id@, a.id@);
        lemma_text_order(a.id@, b.id@, c.id@);
    }

    fn goes_before(&self, other: &Self) -> (r: bool) {
        text_less(self.id.as_str(), other.id.as_str())
    }
}

fn sockets_of(endpoints: &[RawEndpoint], pid: u32) -> (r: (Vec<RawEndpoint>, bool))
    ensures
        r.0@ == owned_by(endpoints@, pid),
        r.1 == qualifies(endpoints@, pid),
{
    let mut owned: Vec<RawEndpoint> = Vec::new();
    let mut any = false;
    let mut i: usize = 0;
    while i < endpoints.len()
        invariant
            i <= endpoints@.len(),
            owned@ == owned_by(endpoints@.take(i as int), pid),
            any == exists|k: int| 0 <= k < i && #[trigger] endpoints@[k].pid == pid && spec_is_non_system(
                endpoints@[k].port,
            ),
        decreases endpoints@.len() - i,
    {
        let e = endpoints[i];
        proof {
            assert(endpoints@.take(i as int + 1).drop_last() =~= endpoints@.take(i as int));
            reveal(Seq::filter);
        }
        if e.pid == pid {
            owned.push(e);
            if is_non_system(e.port) {
                any = true;
            }
        }
        i = i + 1;
    }
    proof {
        assert(endpoints@.take(endpoints@.len() as int) =~= endpoints@);
    }
    (owned, any)
}

/// Join this tick's processes to this tick's sockets.
///
/// Each row holding a socket on a non-system port becomes one service, with
/// every socket it owns as an endpoint. Services come out ordered by
/// identity. Relevance is left unclassified: classification needs command
/// lines, which a later pass reads.
pub fn join_services(rows: &[ProcessRow], endpoints: &[RawEndpoint]) -> (j: ServiceJoin)
    ensures
        j.wf(),
        exists|unsorted: Seq<Service>|
            {
                &&& unsorted.len() == service_rows(rows@, endpoints@).len()
                &&& forall|i: int|
                    0 <= i < unsorted.len() ==> service_for(
                        #[trigger] unsorted[i],
                        service_rows(rows@, endpoints@)[i],
                        endpoints@,
                    )
                &&& is_stable_sort_of(j.services@, unsorted)
                &&& j.label_map() == labels_of(unsorted)
            },
        forall|id: Seq<char>| #[trigger] j.label_map().contains_key(id) <==> is_service_id(rows@, endpoints@, id),
{
    let mut services: Vec<Service> = Vec::new();
    let mut labels: Assoc<String> = Assoc::new();
    let mut i: usize = 0;
    while i < rows.len()
        invariant
            i <= rows@.len(),
            labels.wf(),
            services@.len() == service_rows(rows@.take(i as int), endpoints@).len(),
            forall|k: int|
                0 <= k < services@.len() ==> service_for(
                    #[trigger] services@[k],
                    service_rows(rows@.take(i as int), endpoints@)[k],
                    endpoints@,
                ),
            labels.view() == labels_of(services@),
        decreases rows@.len() - i,
    {
        let row = &rows[i];
        proof {
            assert(rows@.take(i as int + 1).drop_last() =~= rows@.take(i as int));
            reveal(Seq::filter);
        }
        let (owned, any) = sockets_of(endpoints, row.pid);
        if any {
            let eps = collect_endpoints(owned.as_slice());
            let label = label_for(row.name.as_str(), eps.as_slice());
            labels.insert(row.id.clone(), label.clone());
            let ghost before = services@;
            services.push(
                Service {
                    id: row.id.clone(),
                    label,
                    framework: None,
                    process_name: row.name.clone(),
                    pid: row.pid,
                    parent_pid: row.parent_pid,
                    cpu_hundredths: row.cpu_hundredths,
                    memory_bytes: row.memory_bytes,
                    thread_count: row.thread_count,
                    started_at: row.started_at.clone(),
                    uptime_millis: row.uptime_millis,
                    endpoints: eps,
                    status: ServiceStatus::Running,
                    relevance: Relevance::Unknown,
                    relevance_reason: String::new(),
                },
            );
            proof {
                assert(services@.drop_last() =~= before);
            }
        }
        i = i + 1;
    }
    proof {
        assert(rows@.take(rows@.len() as int) =~= rows@);
    }
    let ghost unsorted = services@;
    proof {
        assert forall|id: Seq<char>| #[trigger] labels.view().contains_key(id) <==> is_service_id(rows@, endpoints@, id) by {
            lemma_labels_of_domain(unsorted, id);
            if is_service_id(rows@, endpoints@, id) {
                let i = choose|i: int| 0 <= i < service_rows(rows@, endpoints@).len() && #[trigger] service_rows(rows@, endpoints@)[i].id@ == id;
                assert(unsorted[i].id@ == id);
            }
            if labels.view().contains_key(id) {
                let i = choose|i: int| 0 <= i < unsorted.len() && #[trigger] unsorted[i].id@ == id;
                assert(service_rows(rows@, endpoints@)[i].id@ == id);
            }
        }
    }
    let sorted = sort_stably(services);
    ServiceJoin { services: sorted, labels }
}

/// Each service is one process: a service's identity is its row's identity,
/// and rows that held no qualifying socket produce none.
pub proof fn law_services_come_from_qualifying_rows(rows: Seq<ProcessRow>, endpoints: Seq<RawEndpoint>, i: int)
    requires
        0 <= i < service_rows(rows, endpoints).len(),
    ensures
        qualifies(endpoints, service_rows(rows, endpoints)[i].pid),
        rows.contains(service_rows(rows, endpoints)[i]),
{
    let f = |r: ProcessRow| qualifies(endpoints, r.pid);
    let s = service_rows(rows, endpoints);
    rows.lemma_filter_pred(f, i);
    assert(s.contains(s[i]));
    rows.lemma_filter_contains_rev(f, s[i]);
}

/// Every row holding a listening socket on a non-system port is a service:
/// nothing about what the program is called can keep it out.
pub proof fn law_every_qualifying_row_is_a_service(rows: Seq<ProcessRow>, endpoints: Seq<RawEndpoint>, k: int)
    requires
        0 <= k < rows.len(),
        qualifies(endpoints, rows[k].pid),
    ensures
        is_service_id(rows, endpoints, rows[k].id@),
{
    let f = |r: ProcessRow| qualifies(endpoints, r.pid);
    let s = service_rows(rows, endpoints);
    rows.lemma_filter_contains(f, k);
    let i = choose|i: int| 0 <= i < s.len() && s[i] == rows[k];
    assert(s[i].id@ == rows[k].id@);
}

#[verifier::spinoff_prover]
#[verifier::rlimit(50)]
proof fn lemma_dedup_covers(s: Seq<Endpoint>)
    ensures
        forall|m: int| 0 <= m < s.len() ==> exists|j: int|
            0 <= j < dedup_adjacent(s).len() && (#[trigger] dedup_adjacent(s)[j]).protocol == (#[trigger] s[m]).protocol
                && dedup_adjacent(s)[j].address@ == s[m].address@ && dedup_adjacent(s)[j].port == s[m].port,
        forall|j: int| 0 <= j < dedup_adjacent(s).len() ==> exists|m: int|
            0 <= m < s.len() && #[trigger] s[m] == #[trigger] dedup_adjacent(s)[j],
    decreases s.len(),
{
    if s.len() > 0 {
        let rest = s.drop_last();
        lemma_dedup_covers(rest);
        let d = dedup_adjacent(rest);
        let r = dedup_adjacent(s);
        assert forall|m: int| 0 <= m < s.len() implies exists|j: int|
            0 <= j < r.len() && (#[trigger] r[j]).protocol == (#[trigger] s[m]).protocol && r[j].address@ == s[m].address@
                && r[j].port == s[m].port by {
            if m < rest.len() {
                assert(rest[m] == s[m]);
                let j = choose|j: int|
                    0 <= j < d.len() && (#[trigger] d[j]).protocol == (#[trigger] rest[m]).protocol && d[j].address@
                        == rest[m].address@ && d[j].port == rest[m].port;
                assert(r[j] == d[j]);
            } else {
                if d.len() > 0 && same_endpoint(d.last(), s.last()) {
                    assert(r[d.len() - 1] == d.last());
                } else {
                    assert(r[d.len() as int] == s.last());
                }
            }
        }
        assert forall|j: int| 0 <= j < r.len() implies exists|m: int| 0 <= m < s.len() && #[trigger] s[m] == #[trigger] r[j] by {
            if j < d.len() {
                assert(r[j] == d[j]);
                let m = choose|m: int| 0 <= m < rest.len() && #[trigger] rest[m] == #[trigger] d[j];
                assert(s[m] == rest[m]);
            } else {
                assert(r[j] == s[s.len() - 1]);
            }
        }
    }
}

spec fn placed(perm: Seq<int>, n: int, k: int) -> bool {
    exists|m: int| 0 <= m < n && #[trigger] perm[m] == k
}

#[verifier::spinoff_prover]
proof fn lemma_cover_from_parts(
    eps: Seq<Endpoint>,
    owned: Seq<RawEndpoint>,
    mapped: Seq<Endpoint>,
    sorted: Seq<Endpoint>,
    perm: Seq<int>,
)
    requires
        mapped.len() == owned.len(),
        forall|i: int| 0 <= i < owned.len() ==> endpoint_for(#[trigger] mapped[i], owned[i]),
        sorted.len() == mapped.len(),
        perm.len() == sorted.len(),
        forall|i: int| 0 <= i < sorted.len() ==> 0 <= #[trigger] perm[i] < mapped.len() && sorted[i] == mapped[perm[i]],
        forall|k: int| 0 <= k < mapped.len() ==> #[trigger] placed(perm, sorted.len() as int, k),
        eps == dedup_adjacent(sorted),
    ensures
        forall|k: int| 0 <= k < owned.len() ==> exists|j: int|
            0 <= j < eps.len() && (#[trigger] eps[j]).protocol == (#[trigger] owned[k]).protocol && eps[j].address@
                == spec_format_address(owned[k].address, owned[k].scope_id) && eps[j].port == owned[k].port,
        forall|j: int| 0 <= j < eps.len() ==> exists|k: int|
            0 <= k < owned.len() && (#[trigger] eps[j]).protocol == (#[trigger] owned[k]).protocol && eps[j].address@
                == spec_format_address(owned[k].address, owned[k].scope_id) && eps[j].port == owned[k].port,
{
    lemma_dedup_covers(sorted);
    assert forall|k: int| 0 <= k < owned.len() implies exists|j: int|
        0 <= j < eps.len() && (#[trigger] eps[j]).protocol == (#[trigger] owned[k]).protocol && eps[j].address@
            == spec_format_address(owned[k].address, owned[k].scope_id) && eps[j].port == owned[k].port by {
        assert(placed(perm, sorted.len() as int, k));
        let m = choose|m: int| 0 <= m < sorted.len() && #[trigger] perm[m] == k;
        assert(sorted[m] == mapped[k]);
        assert(endpoint_for(mapped[k], owned[k]));
        let j = choose|j: int|
            0 <= j < eps.len() && (#[trigger] eps[j]).protocol == (#[trigger] sorted[m]).protocol && eps[j].address@
                == sorted[m].address@ && eps[j].port == sorted[m].port;
    }
    assert forall|j: int| 0 <= j < eps.len() implies exists|k: int|
        0 <= k < owned.len() && (#[trigger] eps[j]).protocol == (#[trigger] owned[k]).protocol && eps[j].address@
            == spec_format_address(owned[k].address, owned[k].scope_id) && eps[j].port == owned[k].port by {
        let m = choose|m: int| 0 <= m < sorted.len() && #[trigger] sorted[m] == #[trigger] eps[j];
        let k = perm[m];
        assert(sorted[m] == mapped[k]);
        assert(endpoint_for(mapped[k], owned[k]));
    }
}

/// A service's endpoints account for every socket its process holds, and
/// for nothing else: each owned socket has an endpoint with its protocol,
/// its rendered address and its port (a TCP and a UDP socket on the same
/// address and port are two endpoints), and each endpoint is one of the
/// owned sockets.
pub proof fn law_endpoints_cover_every_socket(eps: Seq<Endpoint>, owned: Seq<RawEndpoint>)
    requires
        endpoints_for(eps, owned),
    ensures
        forall|k: int| 0 <= k < owned.len() ==> exists|j: int|
            0 <= j < eps.len() && (#[trigger] eps[j]).protocol == (#[trigger] owned[k]).protocol && eps[j].address@
                == spec_format_address(owned[k].address, owned[k].scope_id) && eps[j].port == owned[k].port,
        forall|j: int| 0 <= j < eps.len() ==> exists|k: int|
            0 <= k < owned.len() && (#[trigger] eps[j]).protocol == (#[trigger] owned[k]).protocol && eps[j].address@
                == spec_format_address(owned[k].address, owned[k].scope_id) && eps[j].port == owned[k].port,
{
    let (mapped, sorted) = choose|mapped: Seq<Endpoint>, sorted: Seq<Endpoint>|
        {
            &&& mapped.len() == owned.len()
            &&& forall|i: int| 0 <= i < owned.len() ==> endpoint_for(#[trigger] mapped[i], owned[i])
            &&& is_stable_sort_of(sorted, mapped)
            &&& eps == dedup_adjacent(sorted)
        };
    let perm = choose|perm: Seq<int>| is_stable_arrangement(sorted, mapped, perm);
    assert(sorted.len() == mapped.len() && perm.len() == sorted.len() && forall|i: int|
        0 <= i < sorted.len() ==> 0 <= #[trigger] perm[i] < mapped.len() && sorted[i] == mapped[perm[i]]);
    assert forall|k: int| 0 <= k < mapped.len() implies #[trigger] placed(perm, sorted.len() as int, k) by {
        lemma_arrangement_is_onto(sorted, mapped, perm, k);
    }
    lemma_cover_from_parts(eps, owned, mapped, sorted, perm);
}

/// Only a port from 1024 up makes a process a service: the system range
/// 0 to 1023 never does, and one socket above it is enough.
pub proof fn law_only_non_system_ports_qualify(endpoints: Seq<RawEndpoint>, pid: u32)
    ensures
        qualifies(endpoints, pid) <==> exists|i: int|
            0 <= i < endpoints.len() && #[trigger] endpoints[i].pid == pid && endpoints[i].port >= 1024,
{
}

proof fn lemma_sorted_ports_rise(sorted: Seq<Endpoint>, mapped: Seq<Endpoint>, perm: Seq<int>)
    requires
        is_stable_arrangement(sorted, mapped, perm),
        sorted.len() > 0,
    ensures
        forall|j: int| 0 <= j < sorted.len() ==> sorted[0].port <= (#[trigger] sorted[j]).port,
{
    assert forall|j: int| 0 <= j < sorted.len() implies sorted[0].port <= (#[trigger] sorted[j]).port by {
        if 0 < j {
            assert(!sorted[j].precedes(&sorted[0]));
        }
    }
}

/// A service's label names its executable and the lowest port among the
/// sockets its process holds: `node:3000` for a process listening on 3000
/// and 5173.
pub proof fn law_label_names_the_lowest_port(process_name: Seq<char>, eps: Seq<Endpoint>, owned: Seq<RawEndpoint>)
    requires
        endpoints_for(eps, owned),
        owned.len() > 0,
    ensures
        exists|k: int|
            0 <= k < owned.len() && spec_label(process_name, eps) == spec_stem(process_name) + seq![':'] + decimal(
                (#[trigger] owned[k]).port as nat,
            ) && forall|m: int| 0 <= m < owned.len() ==> owned[k].port <= (#[trigger] owned[m]).port,
{
    let (mapped, sorted) = choose|mapped: Seq<Endpoint>, sorted: Seq<Endpoint>|
        {
            &&& mapped.len() == owned.len()
            &&& forall|i: int| 0 <= i < owned.len() ==> endpoint_for(#[trigger] mapped[i], owned[i])
            &&& is_stable_sort_of(sorted, mapped)
            &&& eps == dedup_adjacent(sorted)
        };
    let perm = choose|perm: Seq<int>| is_stable_arrangement(sorted, mapped, perm);
    assert(sorted.len() == mapped.len());
    lemma_sorted_ports_rise(sorted, mapped, perm);
    lemma_dedup_first(sorted);
    let k = perm[0];
    assert(sorted[0] == mapped[k] && endpoint_for(mapped[k], owned[k]));
    assert forall|m: int| 0 <= m < owned.len() implies owned[k].port <= (#[trigger] owned[m]).port by {
        lemma_arrangement_is_onto(sorted, mapped, perm, m);
        let j = choose|j: int| 0 <= j < sorted.len() && perm[j] == m;
        assert(sorted[j] == mapped[m] && endpoint_for(mapped[m], owned[m]));
    }
    assert(eps[0] == sorted[0]);
}

proof fn lemma_dedup_first(s: Seq<Endpoint>)
    requires
        s.len() > 0,
    ensures
        dedup_adjacent(s).len() > 0,
        dedup_adjacent(s)[0] == s[0],
    decreases s.len(),
{
    let d = dedup_adjacent(s.drop_last());
    if s.len() > 1 {
        lemma_dedup_first(s.drop_last());
        assert(s.drop_last()[0] == s[0]);
        assert(d.push(s.last())[0] == d[0]);
    } else {
        assert(s.drop_last().len() == 0);
        assert(d.len() == 0);
        assert(d.push(s.last())[0] == s.last());
        assert(s.last() == s[0]);
    }
}

pub open spec fn same_socket(a: Endpoint, b: Endpoint) -> bool {
    a.protocol == b.protocol && a.address@ == b.address@ && a.port == b.port
}

proof fn lemma_socket_order_total(a: Endpoint, b: Endpoint)
    ensures
        a.precedes(&b) || b.precedes(&a) || same_socket(a, b),
{
    crate::order::lemma_text_order(a.address@, b.address@, a.address@);
}

/// Sockets the order cannot tell apart sit next to one another once sorted.
#[verifier::spinoff_prover]
proof fn lemma_equal_sockets_are_adjacent(s: Seq<Endpoint>, i: int, m: int, j: int)
    requires
        forall|x: int, y: int| #![trigger s[x], s[y]] 0 <= x < y < s.len() ==> !s[y].precedes(&s[x]),
        0 <= i < m < j < s.len(),
        same_socket(s[i], s[j]),
    ensures
        same_socket(s[i], s[m]),
{
    lemma_socket_order_total(s[i], s[m]);
    assert(!s[m].precedes(&s[i]));
    assert(!s[j].precedes(&s[m]));
}

pub open spec fn equal_sockets_adjacent(s: Seq<Endpoint>) -> bool {
    forall|i: int, m: int, j: int|
        #![trigger s[i], s[m], s[j]]
        0 <= i < m < j < s.len() && same_socket(s[i], s[j]) ==> same_socket(s[i], s[m])
}

proof fn lemma_dedup_from(s: Seq<Endpoint>)
    ensures
        forall|j: int| 0 <= j < dedup_adjacent(s).len() ==> exists|m: int|
            0 <= m < s.len() && #[trigger] s[m] == #[trigger] dedup_adjacent(s)[j],
{
    lemma_dedup_covers(s);
}

#[verifier::spinoff_prover]
proof fn lemma_pushed_is_new(s: Seq<Endpoint>, d: Seq<Endpoint>, k: int)
    requires
        equal_sockets_adjacent(s),
        s.len() >= 2,
        0 <= k < s.len() - 1,
        d.len() > 0,
        same_socket(d.last(), s[s.len() - 2]),
        !same_socket(d.last(), s.last()),
    ensures
        !same_socket(s[k], s.last()),
{
    let n = s.len();
    assert(s.last() == s[n - 1]);
    if same_socket(s[k], s[n - 1]) && k < n - 2 {
        assert(same_socket(s[k], s[n - 2]));
    }
}

#[verifier::spinoff_prover]
#[verifier::rlimit(50)]
proof fn lemma_dedup_distinct(s: Seq<Endpoint>)
    requires
        equal_sockets_adjacent(s),
    ensures
        forall|a: int, b: int| 0 <= a < b < dedup_adjacent(s).len() ==> !same_socket(
            #[trigger] dedup_adjacent(s)[a],
            #[trigger] dedup_adjacent(s)[b],
        ),
        s.len() > 0 ==> dedup_adjacent(s).len() > 0 && same_socket(dedup_adjacent(s).last(), s.last()),
    decreases s.len(),
{
    if s.len() > 0 {
        let rest = s.drop_last();
        let d = dedup_adjacent(rest);
        let x = s.last();
        assert(equal_sockets_adjacent(rest)) by {
            assert forall|i: int, m: int, j: int|
                #![trigger rest[i], rest[m], rest[j]]
                0 <= i < m < j < rest.len() && same_socket(rest[i], rest[j]) implies same_socket(rest[i], rest[m]) by {
                assert(rest[i] == s[i] && rest[m] == s[m] && rest[j] == s[j]);
            }
        }
        lemma_dedup_distinct(rest);
        lemma_dedup_from(rest);
        assert(dedup_adjacent(s) == if d.len() > 0 && same_endpoint(d.last(), x) { d } else { d.push(x) });
        if !(d.len() > 0 && same_endpoint(d.last(), x)) {
            let r = d.push(x);
            assert forall|a: int, b: int| 0 <= a < b < r.len() implies !same_socket(#[trigger] r[a], #[trigger] r[b]) by {
                if b == d.len() {
                    let k = choose|k: int| 0 <= k < rest.len() && #[trigger] rest[k] == #[trigger] d[a];
                    assert(rest[k] == s[k]);
                    if d.len() > 0 {
                        assert(rest.last() == s[s.len() - 2]);
                        lemma_pushed_is_new(s, d, k);
                    }
                } else {
                    assert(r[a] == d[a] && r[b] == d[b]);
                }
            }
        }
    }
}

/// No two endpoints of a service are the same socket: each
/// `(protocol, address, port)` is listed once.
#[verifier::spinoff_prover]
pub proof fn law_endpoints_are_distinct(eps: Seq<Endpoint>, owned: Seq<RawEndpoint>)
    requires
        endpoints_for(eps, owned),
    ensures
        forall|a: int, b: int|
            0 <= a < b < eps.len() ==> !((#[trigger] eps[a]).protocol == (#[trigger] eps[b]).protocol && eps[a].address@
                == eps[b].address@ && eps[a].port == eps[b].port),
{
    let (mapped, sorted) = choose|mapped: Seq<Endpoint>, sorted: Seq<Endpoint>|
        {
            &&& mapped.len() == owned.len()
            &&& forall|i: int| 0 <= i < owned.len() ==> endpoint_for(#[trigger] mapped[i], owned[i])
            &&& is_stable_sort_of(sorted, mapped)
            &&& eps == dedup_adjacent(sorted)
        };
    let perm = choose|perm: Seq<int>| is_stable_arrangement(sorted, mapped, perm);
    assert forall|x: int, y: int| #![trigger sorted[x], sorted[y]] 0 <= x < y < sorted.len() implies !sorted[y].precedes(&sorted[x]) by {}
    assert(equal_sockets_adjacent(sorted)) by {
        assert forall|i: int, m: int, j: int|
            #![trigger sorted[i], sorted[m], sorted[j]]
            0 <= i < m < j < sorted.len() && same_socket(sorted[i], sorted[j]) implies same_socket(sorted[i], sorted[m]) by {
            lemma_equal_sockets_are_adjacent(sorted, i, m, j);
        }
    }
    lemma_dedup_distinct(sorted);
    assert forall|a: int, b: int| 0 <= a < b < eps.len() implies !((#[trigger] eps[a]).protocol == (#[trigger] eps[b]).protocol
        && eps[a].address@ == eps[b].address@ && eps[a].port == eps[b].port) by {
        assert(!same_socket(eps[a], eps[b]));
    }
}

/// Services come ordered by identity, compared as text by code point: no
/// service's identity sorts before that of a service listed ahead of it.
pub proof fn law_services_in_identity_order(services: Seq<Service>, unsorted: Seq<Service>)
    requires
        is_stable_sort_of(services, unsorted),
    ensures
        forall|a: int, b: int|
            0 <= a < b < services.len() ==> !lexically_before(
                (#[trigger] services[b]).id@,
                (#[trigger] services[a]).id@,
            ),
{
    let perm = choose|perm: Seq<int>| is_stable_arrangement(services, unsorted, perm);
    assert forall|a: int, b: int| 0 <= a < b < services.len() implies !lexically_before(
        (#[trigger] services[b]).id@,
        (#[trigger] services[a]).id@,
    ) by {
        assert(!services[b].precedes(&services[a]));
        law_text_order_is_lexical(services[b].id@, services[a].id@);
    }
}

proof fn lemma_dedup_keeps_order(s: Seq<Endpoint>, a: int, b: int)
    requires
        0 <= a < b < dedup_adjacent(s).len(),
    ensures
        exists|x: int, y: int|
            0 <= x < y < s.len() && #[trigger] s[x] == dedup_adjacent(s)[a] && #[trigger] s[y] == dedup_adjacent(s)[b],
    decreases s.len(),
{
    let rest = s.drop_last();
    let d = dedup_adjacent(rest);
    let r = dedup_adjacent(s);
    if b < d.len() {
        lemma_dedup_keeps_order(rest, a, b);
        let (x, y) = choose|x: int, y: int|
            0 <= x < y < rest.len() && #[trigger] rest[x] == d[a] && #[trigger] rest[y] == d[b];
        assert(s[x] == rest[x] && s[y] == rest[y]);
        assert(r[a] == d[a] && r[b] == d[b]);
    } else {
        assert(r[b] == s.last());
        assert(r[a] == d[a]);
        lemma_dedup_from(rest);
        let x = choose|x: int| 0 <= x < rest.len() && #[trigger] rest[x] == #[trigger] d[a];
        assert(s[x] == rest[x]);
        assert(s[s.len() - 1] == s.last());
    }
}

/// The socket order, written out: by port; on one port an IPv4 address
/// before a bracketed IPv6 one; then by address text; then TCP before UDP.
pub open spec fn in_socket_order(a: Endpoint, b: Endpoint) -> bool {
    let v6a = a.address@.len() > 0 && a.address@[0] == '[';
    let v6b = b.address@.len() > 0 && b.address@[0] == '[';
    ||| a.port < b.port
    ||| a.port == b.port && !v6a && v6b
    ||| a.port == b.port && v6a == v6b && lexically_before(a.address@, b.address@)
    ||| a.port == b.port && v6a == v6b && a.address@ == b.address@ && a.protocol == Protocol::Tcp && b.protocol
        == Protocol::Udp
}

/// A service's endpoints come in the socket order the Ports screen uses, so
/// the first is the lowest port: each endpoint comes strictly before every
/// later one.
pub proof fn law_endpoints_come_in_socket_order(eps: Seq<Endpoint>, owned: Seq<RawEndpoint>)
    requires
        endpoints_for(eps, owned),
    ensures
        forall|a: int, b: int| 0 <= a < b < eps.len() ==> in_socket_order(#[trigger] eps[a], #[trigger] eps[b]),
{
    let (mapped, sorted) = choose|mapped: Seq<Endpoint>, sorted: Seq<Endpoint>|
        {
            &&& mapped.len() == owned.len()
            &&& forall|i: int| 0 <= i < owned.len() ==> endpoint_for(#[trigger] mapped[i], owned[i])
            &&& is_stable_sort_of(sorted, mapped)
            &&& eps == dedup_adjacent(sorted)
        };
    let perm = choose|perm: Seq<int>| is_stable_arrangement(sorted, mapped, perm);
    law_endpoints_are_distinct(eps, owned);
    assert forall|a: int, b: int| 0 <= a < b < eps.len() implies in_socket_order(#[trigger] eps[a], #[trigger] eps[b]) by {
        lemma_dedup_keeps_order(sorted, a, b);
        let (x, y) = choose|x: int, y: int|
            0 <= x < y < sorted.len() && #[trigger] sorted[x] == eps[a] && #[trigger] sorted[y] == eps[b];
        assert(!sorted[y].precedes(&sorted[x]));
        lemma_socket_order_total(eps[a], eps[b]);
        assert(!same_socket(eps[a], eps[b]));
        assert(eps[a].precedes(&eps[b]));
        law_text_order_is_lexical(eps[a].address@, eps[b].address@);
    }
}

} // verus!
