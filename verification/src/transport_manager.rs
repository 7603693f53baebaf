//! The transport manager: a deduplicated outbox, a verified relay directory, per-endpoint
//! health with exponential backoff, and the decisions of a flush.
//!
//! A flush is a conversation between the manager and whoever owns the network: the
//! manager names the endpoint and the transport for the front frame, the caller sends
//! and reports the outcome, and the manager decides what comes next. WebSocket is tried
//! first and HTTPS is the fallback on the same endpoint; a frame leaves the outbox only
//! when a relay has answered it.
use crate::protocol::{spec_encode_frame, TransportFrame};
use crate::transport::{
    endpoint_views, spec_verify_directory, stable_order, insert_in_order, DirectoryView,
    EndpointView, ByteCounters, RelayEndpoint, SignedRelayDirectory, TransportError,
};
use vstd::prelude::*;

verus! {

/// The longest backoff exponent: retries wait at most 2^8 seconds plus jitter.
pub const MAX_BACKOFF_EXPONENT: u32 = 8;

struct QueuedFrame {
    client_message_id: [u8; 16],
    bytes: Vec<u8>,
}

#[derive(Clone, Copy)]
struct EndpointHealth {
    endpoint_id: [u8; 16],
    failures: u32,
    retry_after: u64,
}

/// A frame waiting in the outbox: its client message ID and its encoded bytes.
pub struct QueuedView {
    pub client_message_id: Seq<u8>,
    pub bytes: Seq<u8>,
}

/// What the manager knows of one endpoint's health.
pub struct HealthView {
    pub endpoint_id: Seq<u8>,
    pub failures: u32,
    pub retry_after: u64,
}

/// The mathematical value of a transport manager.
pub struct ManagerView {
    pub directory: DirectoryView,
    pub verification_key: Seq<u8>,
    pub outbox: Seq<QueuedView>,
    pub health: Seq<HealthView>,
    pub counters: ByteCounters,
    pub preferred_endpoint: Option<Seq<u8>>,
}

pub struct TransportManager {
    directory: SignedRelayDirectory,
    verification_key: [u8; 32],
    outbox: Vec<QueuedFrame>,
    health: Vec<EndpointHealth>,
    counters: ByteCounters,
    preferred_endpoint: Option<[u8; 16]>,
}

impl View for QueuedFrame {
    type V = QueuedView;

    closed spec fn view(&self) -> QueuedView {
        QueuedView { client_message_id: self.client_message_id@, bytes: self.bytes@ }
    }
}

impl View for EndpointHealth {
    type V = HealthView;

    closed spec fn view(&self) -> HealthView {
        HealthView {
            endpoint_id: self.endpoint_id@,
            failures: self.failures,
            retry_after: self.retry_after,
        }
    }
}

spec fn health_views(h: Seq<EndpointHealth>) -> Seq<HealthView> {
    h.map_values(|e: EndpointHealth| e@)
}

spec fn queued_views(q: Seq<QueuedFrame>) -> Seq<QueuedView> {
    q.map_values(|e: QueuedFrame| e@)
}

/// The view of an optional endpoint ID.
pub open spec fn id_view(id: Option<[u8; 16]>) -> Option<Seq<u8>> {
    match id {
        Some(x) => Some(x@),
        None => None,
    }
}

impl View for TransportManager {
    type V = ManagerView;

    closed spec fn view(&self) -> ManagerView {
        ManagerView {
            directory: self.directory@,
            verification_key: self.verification_key@,
            outbox: queued_views(self.outbox@),
            health: health_views(self.health@),
            counters: self.counters,
            preferred_endpoint: id_view(self.preferred_endpoint),
        }
    }
}

// ---------------------------------------------------------------------------
// The model
// ---------------------------------------------------------------------------
/// Whether a frame with this client message ID waits in the outbox.
pub open spec fn outbox_has(outbox: Seq<QueuedView>, id: Seq<u8>) -> bool {
    exists|i: int| 0 <= i < outbox.len() && (#[trigger] outbox[i]).client_message_id == id
}

/// The manager after queuing a frame: unchanged if a frame with the same client
/// message ID already waits, else the frame joins the back of the outbox.
pub open spec fn spec_enqueue(m: ManagerView, id: Seq<u8>, bytes: Seq<u8>) -> ManagerView {
    if outbox_has(m.outbox, id) {
        m
    } else {
        ManagerView { outbox: m.outbox.push(QueuedView { client_message_id: id, bytes }), ..m }
    }
}

/// No client message ID waits twice, and no endpoint has two health records.
pub open spec fn manager_well_formed(m: ManagerView) -> bool {
    &&& m.directory.endpoints.len() <= usize::MAX
    &&& forall|i: int, j: int|
        0 <= i < j < m.outbox.len() ==> (#[trigger] m.outbox[i]).client_message_id != (
        #[trigger] m.outbox[j]).client_message_id
    &&& forall|i: int, j: int|
        0 <= i < j < m.health.len() ==> (#[trigger] m.health[i]).endpoint_id != (
        #[trigger] m.health[j]).endpoint_id
}

/// The position of the last health record of `id`, if there is one.
pub open spec fn health_index(h: Seq<HealthView>, id: Seq<u8>) -> Option<int>
    decreases h.len(),
{
    if h.len() == 0 {
        None
    } else if h.last().endpoint_id == id {
        Some(h.len() - 1)
    } else {
        health_index(h.drop_last(), id)
    }
}

/// The failure count and retry time of an endpoint; an endpoint without a record has
/// failed zero times and may be tried at once.
pub open spec fn health_of(h: Seq<HealthView>, id: Seq<u8>) -> (u32, u64) {
    match health_index(h, id) {
        Some(i) => (h[i].failures, h[i].retry_after),
        None => (0, 0),
    }
}

/// The health records after recording `e` for its endpoint.
pub open spec fn set_health(h: Seq<HealthView>, e: HealthView) -> Seq<HealthView> {
    match health_index(h, e.endpoint_id) {
        Some(i) => h.update(i, e),
        None => h.push(e),
    }
}

/// The earliest nonzero retry time among the records, if any.
pub open spec fn earliest_retry(h: Seq<HealthView>) -> Option<u64>
    decreases h.len(),
{
    if h.len() == 0 {
        None
    } else {
        let rest = earliest_retry(h.drop_last());
        let x = h.last().retry_after;
        if x == 0 {
            rest
        } else {
            match rest {
                None => Some(x),
                Some(m) => Some(if x < m { x } else { m }),
            }
        }
    }
}

/// The records with every retry time cleared.
pub open spec fn cleared_retries(h: Seq<HealthView>) -> Seq<HealthView> {
    h.map_values(
        |e: HealthView| HealthView { endpoint_id: e.endpoint_id, failures: e.failures, retry_after: 0 },
    )
}

/// Whether endpoint `a` is tried before endpoint `b`: the preferred endpoint goes first,
/// the rest by priority.
pub open spec fn flush_key_before(preferred: Option<Seq<u8>>, a: EndpointView, b: EndpointView) -> bool {
    let other_a = preferred != Some(a.endpoint_id);
    let other_b = preferred != Some(b.endpoint_id);
    (!other_a && other_b) || (other_a == other_b && a.priority < b.priority)
}

/// The order in which a flush tries endpoints, by index; ties keep directory order.
pub open spec fn flush_before(preferred: Option<Seq<u8>>, endpoints: Seq<EndpointView>) -> spec_fn(
    usize,
    usize,
) -> bool {
    |i: usize, j: usize| flush_key_before(preferred, endpoints[i as int], endpoints[j as int])
}

/// The endpoint indices in the order a flush of `m` tries them.
pub open spec fn flush_order(m: ManagerView) -> Seq<usize> {
    stable_order(m.directory.endpoints.len(), flush_before(m.preferred_endpoint, m.directory.endpoints))
}

/// Whether the endpoint at `index` may be tried at `now`.
pub open spec fn endpoint_ready(m: ManagerView, index: usize, now: u64) -> bool {
    health_of(m.health, m.directory.endpoints[index as int].endpoint_id).1 <= now
}

/// The first position from `from` on whose endpoint may be tried at `now`.
pub open spec fn first_ready(m: ManagerView, order: Seq<usize>, from: int, now: u64) -> Option<int>
    decreases order.len() - from,
{
    if from < 0 || from >= order.len() {
        None
    } else if endpoint_ready(m, order[from], now) {
        Some(from)
    } else {
        first_ready(m, order, from + 1, now)
    }
}

/// The counters after one send attempt of `len` bytes.
pub open spec fn count_attempt(c: ByteCounters, len: nat) -> ByteCounters {
    ByteCounters {
        attempts: c.attempts.wrapping_add(1),
        sent: c.sent.wrapping_add(len as u64),
        ..c
    }
}

/// The backoff after the `failures`-th failure in a row: 2^min(failures, 8) seconds.
pub open spec fn backoff_base(failures: u32) -> u64 {
    if failures < MAX_BACKOFF_EXPONENT {
        1u64 << failures
    } else {
        1u64 << MAX_BACKOFF_EXPONENT
    }
}

/// The health record after an endpoint failed at `now`: one more failure, and a retry
/// time of `now` plus the backoff plus a jitter taken from the endpoint ID's first byte.
pub open spec fn failed_health(old: (u32, u64), id: Seq<u8>, now: u64) -> HealthView {
    let failures = old.0.saturating_add(1);
    let base = backoff_base(failures);
    HealthView {
        endpoint_id: id,
        failures,
        retry_after: now.saturating_add((base + (id[0] as u64) % base) as u64),
    }
}

/// Whether a delivery through `id` counts as a relay switch: the endpoint is not the
/// preferred one, and either some endpoint was preferred or `id` is not the first in
/// order.
pub open spec fn is_relay_switch(preferred: Option<Seq<u8>>, highest: Option<Seq<u8>>, id: Seq<u8>) -> bool {
    preferred != Some(id) && (preferred is Some || highest != Some(id))
}

// ---------------------------------------------------------------------------
// The flush conversation
// ---------------------------------------------------------------------------
/// What the caller of a flush does next.
#[derive(Clone, Copy, Debug, PartialEq, Eq, Structural)]
pub enum FlushStep {
    /// Send the front frame over WebSocket to the directory endpoint at this index.
    Websocket(usize),
    /// Send the front frame over HTTPS to the directory endpoint at this index.
    Https(usize),
    /// The outbox is empty; every frame has been answered.
    Complete,
    /// No endpoint could take the front frame; the outbox is kept as it is.
    Unavailable,
}

/// Which answer a flush waits for.
#[derive(Clone, Copy, Debug, PartialEq, Eq, Structural)]
pub enum FlushStage {
    AwaitWebsocket,
    AwaitHttps,
    Finished,
}

/// The state of one flush: the try order for the front frame, the position in it, the
/// first endpoint of that order, and the answers so far.
pub struct FlushCursor {
    order: Vec<usize>,
    position: usize,
    highest: Option<[u8; 16]>,
    stage: FlushStage,
    responses: Vec<Vec<u8>>,
}

/// The mathematical value of a flush cursor.
pub struct CursorView {
    pub order: Seq<usize>,
    pub position: int,
    pub highest: Option<Seq<u8>>,
    pub stage: FlushStage,
    pub responses: Seq<Seq<u8>>,
}

impl View for FlushCursor {
    type V = CursorView;

    closed spec fn view(&self) -> CursorView {
        CursorView {
            order: self.order@,
            position: self.position as int,
            highest: id_view(self.highest),
            stage: self.stage,
            responses: self.responses@.map_values(|v: Vec<u8>| v@),
        }
    }
}

impl FlushCursor {
    /// The relays' answers, in the order the frames left the outbox.
    pub fn into_responses(self) -> (r: Vec<Vec<u8>>)
        ensures
            r@.map_values(|v: Vec<u8>| v@) == self@.responses,
    {
        self.responses
    }

    /// Which answer the flush waits for.
    pub fn stage(&self) -> (r: FlushStage)
        ensures
            r == self@.stage,
    {
        self.stage
    }
}

/// A cursor that fits a manager: its order indexes the directory, and while it waits
/// for an answer its position is inside the order and the outbox holds a frame.
pub open spec fn cursor_fits(m: ManagerView, c: CursorView) -> bool {
    &&& forall|i: int| 0 <= i < c.order.len() ==> #[trigger] c.order[i] < m.directory.endpoints.len()
    &&& c.stage != FlushStage::Finished ==> 0 <= c.position < c.order.len() && m.outbox.len() > 0
}

/// From position `c.position` on, the first endpoint that may be tried gets the front
/// frame over WebSocket; if there is none the flush ends unavailable.
pub open spec fn spec_advance(m: ManagerView, c: CursorView, now: u64) -> (
    ManagerView,
    CursorView,
    FlushStep,
) {
    match first_ready(m, c.order, c.position, now) {
        None => (m, CursorView { stage: FlushStage::Finished, ..c }, FlushStep::Unavailable),
        Some(q) => (
            ManagerView { counters: count_attempt(m.counters, m.outbox[0].bytes.len()), ..m },
            CursorView { position: q, stage: FlushStage::AwaitWebsocket, ..c },
            FlushStep::Websocket(c.order[q]),
        ),
    }
}

/// The next frame: complete if the outbox is empty, else the try order is computed
/// afresh and the first ready endpoint is tried.
pub open spec fn spec_next_frame(m: ManagerView, c: CursorView, now: u64) -> (
    ManagerView,
    CursorView,
    FlushStep,
) {
    if m.outbox.len() == 0 {
        (m, CursorView { stage: FlushStage::Finished, ..c }, FlushStep::Complete)
    } else {
        let order = flush_order(m);
        let highest = if order.len() > 0 {
            Some(m.directory.endpoints[order[0] as int].endpoint_id)
        } else {
            None
        };
        spec_advance(m, CursorView { order, position: 0, highest, ..c }, now)
    }
}

/// A relay answered the front frame: the endpoint's health is reset, it becomes the
/// preferred endpoint, the frame leaves the outbox and the answer is kept.
pub open spec fn spec_delivered(m: ManagerView, c: CursorView, response: Seq<u8>, now: u64) -> (
    ManagerView,
    CursorView,
    FlushStep,
) {
    spec_next_frame(delivered_manager(m, c, response), CursorView { responses: c.responses.push(response), ..c }, now)
}

/// The manager once a relay answered the front frame, before the next frame is tried.
pub open spec fn delivered_manager(m: ManagerView, c: CursorView, response: Seq<u8>) -> ManagerView {
    let id = m.directory.endpoints[c.order[c.position] as int].endpoint_id;
    let counters = ByteCounters {
        received: m.counters.received.wrapping_add(response.len() as u64),
        relay_switches: if is_relay_switch(m.preferred_endpoint, c.highest, id) {
            m.counters.relay_switches.wrapping_add(1)
        } else {
            m.counters.relay_switches
        },
        ..m.counters
    };
    ManagerView {
        health: set_health(m.health, HealthView { endpoint_id: id, failures: 0, retry_after: 0 }),
        counters,
        preferred_endpoint: Some(id),
        outbox: m.outbox.drop_first(),
        ..m
    }
}

/// What a flush does after the WebSocket answer: an answer is a delivery; a failure
/// counts and the same endpoint is tried over HTTPS.
pub open spec fn spec_websocket_outcome(
    m: ManagerView,
    c: CursorView,
    outcome: Result<Seq<u8>, TransportError>,
    now: u64,
) -> (ManagerView, CursorView, FlushStep) {
    match outcome {
        Ok(response) => spec_delivered(m, c, response, now),
        Err(_) => {
            let counters = count_attempt(
                ByteCounters {
                    websocket_failures: m.counters.websocket_failures.wrapping_add(1),
                    ..m.counters
                },
                m.outbox[0].bytes.len(),
            );
            (
                ManagerView { counters, ..m },
                CursorView { stage: FlushStage::AwaitHttps, ..c },
                FlushStep::Https(c.order[c.position]),
            )
        },
    }
}

/// What a flush does after the HTTPS answer: an answer is a delivery; a failure counts,
/// backs the endpoint off, and the next ready endpoint is tried.
pub open spec fn spec_https_outcome(
    m: ManagerView,
    c: CursorView,
    outcome: Result<Seq<u8>, TransportError>,
    now: u64,
) -> (ManagerView, CursorView, FlushStep) {
    match outcome {
        Ok(response) => spec_delivered(m, c, response, now),
        Err(_) => {
            let id = m.directory.endpoints[c.order[c.position] as int].endpoint_id;
            let m2 = ManagerView {
                counters: ByteCounters {
                    https_failures: m.counters.https_failures.wrapping_add(1),
                    ..m.counters
                },
                health: set_health(m.health, failed_health(health_of(m.health, id), id, now)),
                ..m
            };
            spec_advance(m2, CursorView { position: c.position + 1, ..c }, now)
        },
    }
}

/// The view of a send result.
pub open spec fn outcome_view(outcome: Result<Vec<u8>, TransportError>) -> Result<
    Seq<u8>,
    TransportError,
> {
    match outcome {
        Ok(v) => Ok(v@),
        Err(e) => Err(e),
    }
}

// ---------------------------------------------------------------------------
// Health records
// ---------------------------------------------------------------------------
proof fn lemma_health_index_tail(h: Seq<HealthView>, id: Seq<u8>, j: int)
    requires
        0 <= j <= h.len(),
        forall|k: int| j <= k < h.len() ==> (#[trigger] h[k]).endpoint_id != id,
    ensures
        health_index(h, id) == health_index(h.take(j), id),
    decreases h.len(),
{
    if j < h.len() {
        assert(h[h.len() - 1].endpoint_id != id);
        lemma_health_index_tail(h.drop_last(), id, j);
        assert(h.drop_last().take(j) =~= h.take(j));
    } else {
        assert(h.take(j) =~= h);
    }
}

proof fn lemma_health_index_shape(h: Seq<HealthView>, id: Seq<u8>)
    ensures
        health_index(h, id) matches Some(i) ==> 0 <= i < h.len() && h[i].endpoint_id == id && (
        forall|k: int| i < k < h.len() ==> (#[trigger] h[k]).endpoint_id != id),
        health_index(h, id) is None ==> forall|k: int|
            0 <= k < h.len() ==> (#[trigger] h[k]).endpoint_id != id,
    decreases h.len(),
{
    if h.len() > 0 {
        lemma_health_index_shape(h.drop_last(), id);
        assert(h.last() == h[h.len() - 1]);
        assert forall|k: int| 0 <= k < h.len() - 1 implies h.drop_last()[k] == #[trigger] h[k] by {}
    }
}

fn find_health(h: &Vec<EndpointHealth>, id: &[u8; 16]) -> (r: Option<usize>)
    ensures
        match r {
            Some(i) => health_index(health_views(h@), id@) == Some(i as int),
            None => health_index(health_views(h@), id@) is None,
        },
{
    let ghost hv = health_views(h@);
    let mut j: usize = h.len();
    while j > 0
        invariant
            hv == health_views(h@),
            0 <= j <= h@.len(),
            forall|k: int| j <= k < hv.len() ==> (#[trigger] hv[k]).endpoint_id != id@,
        decreases j,
    {
        let same = crate::bytes::bytes_equal(&h[j - 1].endpoint_id, id);
        assert(hv[j - 1] == h@[j - 1]@);
        if same {
            proof {
                lemma_health_index_tail(hv, id@, j as int);
                assert(hv.take(j as int).last() == hv[j - 1]);
            }
            return Some(j - 1);
        }
        j = j - 1;
    }
    proof {
        lemma_health_index_tail(hv, id@, 0);
    }
    None
}

/// Records `e` as the health of its endpoint.
fn record_health(h: &mut Vec<EndpointHealth>, e: EndpointHealth)
    requires
        forall|i: int, j: int|
            0 <= i < j < old(h)@.len() ==> (#[trigger] old(h)@[i]).endpoint_id@ != (
            #[trigger] old(h)@[j]).endpoint_id@,
    ensures
        health_views(final(h)@) == set_health(
            health_views(old(h)@),
            e@,
        ),
        forall|i: int, j: int|
            0 <= i < j < final(h)@.len() ==> (#[trigger] final(h)@[i]).endpoint_id@ != (
            #[trigger] final(h)@[j]).endpoint_id@,
{
    let ghost hv = health_views(old(h)@);
    proof {
        lemma_health_index_shape(hv, e@.endpoint_id);
    }
    match find_health(h, &e.endpoint_id) {
        Some(i) => {
            h.set(i, e);
            assert(health_views(h@) =~= hv.update(i as int, e@));
            assert forall|a: int, b: int| 0 <= a < b < h@.len() implies (#[trigger] h@[a]).endpoint_id@
                != (#[trigger] h@[b]).endpoint_id@ by {
                if a == i {
                    assert(old(h)@[b].endpoint_id@ == hv[b].endpoint_id);
                    assert(old(h)@[a].endpoint_id@ == hv[a].endpoint_id);
                } else if b == i {
                    assert(old(h)@[b].endpoint_id@ == hv[b].endpoint_id);
                    assert(old(h)@[a].endpoint_id@ == hv[a].endpoint_id);
                }
            }
        },
        None => {
            h.push(e);
            assert(health_views(h@) =~= hv.push(e@));
            assert forall|a: int, b: int| 0 <= a < b < h@.len() implies (#[trigger] h@[a]).endpoint_id@
                != (#[trigger] h@[b]).endpoint_id@ by {
                if b == h@.len() - 1 {
                    assert(hv[a].endpoint_id != e@.endpoint_id);
                }
            }
        },
    }
}

// ---------------------------------------------------------------------------
// Ordering endpoints for a flush
// ---------------------------------------------------------------------------
fn flush_goes_before(preferred: &Option<[u8; 16]>, a: &RelayEndpoint, b: &RelayEndpoint) -> (r: bool)
    ensures
        r == flush_key_before(id_view(*preferred), a@, b@),
{
    let other_a = match preferred {
        Some(p) => !crate::bytes::bytes_equal(p, &a.endpoint_id),
        None => true,
    };
    let other_b = match preferred {
        Some(p) => !crate::bytes::bytes_equal(p, &b.endpoint_id),
        None => true,
    };
    (!other_a && other_b) || (other_a == other_b && a.priority < b.priority)
}

fn compute_flush_order(endpoints: &Vec<RelayEndpoint>, preferred: &Option<[u8; 16]>) -> (order: Vec<
    usize,
>)
    ensures
        order@ == stable_order(
            endpoints@.len(),
            flush_before(id_view(*preferred), endpoint_views(endpoints@)),
        ),
        forall|i: int| 0 <= i < order@.len() ==> #[trigger] order@[i] < endpoints@.len(),
{
    let ghost views = endpoint_views(endpoints@);
    let ghost before = flush_before(id_view(*preferred), views);
    let n = endpoints.len();
    let mut order: Vec<usize> = Vec::new();
    let mut k: usize = 0;
    while k < n
        invariant
            n == endpoints@.len(),
            views == endpoint_views(endpoints@),
            before == flush_before(id_view(*preferred), views),
            0 <= k <= n,
            order@ == stable_order(k as nat, before),
            order@.len() == k,
            forall|i: int| 0 <= i < k ==> #[trigger] order@[i] < k,
        decreases n - k,
    {
        let mut j: usize = order.len();
        while j > 0 && flush_goes_before(preferred, &endpoints[k], &endpoints[order[j - 1]])
            invariant
                n == endpoints@.len(),
                views == endpoint_views(endpoints@),
                before == flush_before(id_view(*preferred), views),
                k < n,
                order@.len() == k,
                forall|i: int| 0 <= i < k ==> #[trigger] order@[i] < k,
                0 <= j <= k,
                forall|m: int| j <= m < k ==> before(k, #[trigger] order@[m]),
            decreases j,
        {
            assert(views[k as int] == endpoints@[k as int]@);
            assert(views[order@[j - 1] as int] == endpoints@[order@[j - 1] as int]@);
            j = j - 1;
        }
        proof {
            if j > 0 {
                assert(views[k as int] == endpoints@[k as int]@);
                assert(views[order@[j - 1] as int] == endpoints@[order@[j - 1] as int]@);
            }
            crate::transport::lemma_insert_at(order@, k, before, j as int);
            crate::transport::lemma_stable_order_shape((k + 1) as nat, before);
        }
        order.insert(j, k);
        assert(order@ =~= stable_order(k as nat, before).take(j as int).push(k) + stable_order(
            k as nat,
            before,
        ).skip(j as int));
        k = k + 1;
    }
    order
}

// ---------------------------------------------------------------------------
// The manager
// ---------------------------------------------------------------------------
/// All counters at zero.
pub open spec fn zero_counters() -> ByteCounters {
    ByteCounters {
        sent: 0,
        received: 0,
        attempts: 0,
        websocket_failures: 0,
        https_failures: 0,
        relay_switches: 0,
    }
}

/// The view of a cursor before a flush starts.
pub open spec fn fresh_cursor() -> CursorView {
    CursorView {
        order: Seq::empty(),
        position: 0,
        highest: None,
        stage: FlushStage::Finished,
        responses: Seq::empty(),
    }
}

fn same_id(a: &Option<[u8; 16]>, id: &[u8; 16]) -> (r: bool)
    ensures
        r == (id_view(*a) == Some(id@)),
{
    match a {
        Some(x) => crate::bytes::bytes_equal(x, id),
        None => false,
    }
}

impl TransportManager {
    /// Every manager keeps its outbox and health records free of duplicates.
    #[verifier::type_invariant]
    spec fn outbox_and_health_distinct(self) -> bool {
        manager_well_formed(self@)
    }

    /// Starts a manager on a directory that verifies under `verification_key` at `now`.
    pub fn new(directory: SignedRelayDirectory, verification_key: [u8; 32], now: u64) -> (r: Result<
        TransportManager,
        TransportError,
    >)
        ensures
            match spec_verify_directory(directory@, verification_key@, now, 0) {
                Ok(_) => r matches Ok(m) && m@.directory == directory@ && m@.verification_key
                    == verification_key@ && m@.outbox.len() == 0 && m@.health.len() == 0
                    && m@.counters == zero_counters() && m@.preferred_endpoint is None
                    && manager_well_formed(m@),
                Err(e) => r matches Err(x) && x == e,
            },
    {
        directory.verify(&verification_key, now, 0)?;
        let m = TransportManager {
            directory,
            verification_key,
            outbox: Vec::new(),
            health: Vec::new(),
            counters: ByteCounters {
                sent: 0,
                received: 0,
                attempts: 0,
                websocket_failures: 0,
                https_failures: 0,
                relay_switches: 0,
            },
            preferred_endpoint: None,
        };
        assert(m@.outbox =~= Seq::<QueuedView>::empty());
        assert(m@.health =~= Seq::<HealthView>::empty());
        Ok(m)
    }

    /// Replaces the directory with `next` if it verifies at `now` and is newer than the
    /// current one. An older directory is a rollback; one of the same version that
    /// verifies is a rollback too (its signature and validity window are checked first).
    /// Otherwise the current directory stays.
    pub fn update_directory(&mut self, next: SignedRelayDirectory, now: u64) -> (r: Result<
        (),
        TransportError,
    >)
        ensures
            r == match spec_verify_directory(next@, old(self)@.verification_key, now, old(self)@.directory.version) {
                Err(e) => Err::<(), TransportError>(e),
                Ok(_) => if next@.version <= old(self)@.directory.version {
                    Err::<(), TransportError>(TransportError::DirectoryRollback)
                } else {
                    Ok::<(), TransportError>(())
                },
            },
            r is Ok ==> next@.version > old(self)@.directory.version,
            r is Ok ==> final(self)@ == (ManagerView { directory: next@, ..old(self)@ }),
            r is Err ==> final(self)@ == old(self)@,
            manager_well_formed(final(self)@),
    {
        proof {
            use_type_invariant(&*self);
        }
        next.verify(&self.verification_key, now, self.directory.version)?;
        if next.version <= self.directory.version {
            return Err(TransportError::DirectoryRollback);
        }
        self.directory = next;
        Ok(())
    }

    /// Queues a frame, once per client message ID; a frame that does not encode within
    /// the protocol limit is refused.
    #[verifier::loop_isolation(false)]
    pub fn enqueue(&mut self, frame: &TransportFrame) -> (r: Result<(), TransportError>)
        ensures
            manager_well_formed(final(self)@),
            match spec_encode_frame(frame@) {
                Err(_) => r == Err::<(), TransportError>(TransportError::FrameTooLarge)
                    && final(self)@ == old(self)@,
                Ok(bytes) => r is Ok && final(self)@ == spec_enqueue(
                    old(self)@,
                    frame@.client_message_id,
                    bytes,
                ),
            },
    {
        proof {
            use_type_invariant(&*self);
        }
        let bytes = match frame.encode() {
            Ok(b) => b,
            Err(_) => {
                return Err(TransportError::FrameTooLarge);
            },
        };
        let ghost ov = self@.outbox;
        let ghost start = self@;
        let mut i: usize = 0;
        while i < self.outbox.len()
            invariant
                self@ == start,
                start == old(self)@,
                ov == start.outbox,
                ov == queued_views(self.outbox@),
                0 <= i <= ov.len(),
                forall|k: int| 0 <= k < i ==> (#[trigger] ov[k]).client_message_id != frame@.client_message_id,
            decreases ov.len() - i,
        {
            assert(ov[i as int] == self.outbox@[i as int]@);
            if crate::bytes::bytes_equal(&self.outbox[i].client_message_id, &frame.client_message_id.0) {
                assert(outbox_has(ov, frame@.client_message_id));
                return Ok(());
            }
            i = i + 1;
        }
        let queued = QueuedFrame { client_message_id: frame.client_message_id.0, bytes };
        let mut outbox: Vec<QueuedFrame> = Vec::new();
        std::mem::swap(&mut outbox, &mut self.outbox);
        outbox.push(queued);
        assert(queued_views(outbox@) =~= ov.push(queued@));
        self.outbox = outbox;
        Ok(())
    }

    /// The number of frames waiting in the outbox.
    pub fn pending_count(&self) -> (r: usize)
        ensures
            r == self@.outbox.len(),
    {
        self.outbox.len()
    }

    /// The byte and outcome counters.
    pub fn counters(&self) -> (r: ByteCounters)
        ensures
            r == self@.counters,
    {
        self.counters
    }

    /// The current relay directory.
    pub fn directory(&self) -> (r: &SignedRelayDirectory)
        ensures
            r@ == self@.directory,
    {
        &self.directory
    }

    /// The encoded frame at the front of the outbox, which a flush sends next.
    pub fn front_frame(&self) -> (r: Option<&[u8]>)
        ensures
            self@.outbox.len() == 0 ==> r is None,
            self@.outbox.len() > 0 ==> (r matches Some(b) && b@ == self@.outbox[0].bytes),
    {
        if self.outbox.len() == 0 {
            None
        } else {
            Some(self.outbox[0].bytes.as_slice())
        }
    }

    /// A platform network-path change allows one immediate retry without polling: every
    /// endpoint's retry time is cleared; the outbox, the directory and the failure counts
    /// stay.
    #[verifier::loop_isolation(false)]
    pub fn notify_network_change(&mut self)
        ensures
            final(self)@ == (ManagerView { health: cleared_retries(old(self)@.health), ..old(self)@ }),
            manager_well_formed(final(self)@),
    {
        proof {
            use_type_invariant(&*self);
        }
        let ghost hv = self@.health;
        let mut health: Vec<EndpointHealth> = Vec::new();
        std::mem::swap(&mut health, &mut self.health);
        let mut i: usize = 0;
        while i < health.len()
            invariant
                hv.len() == health@.len(),
                0 <= i <= hv.len(),
                forall|k: int| 0 <= k < i ==> #[trigger] health_views(health@)[k] == cleared_retries(hv)[k],
                forall|k: int| i <= k < hv.len() ==> #[trigger] health_views(health@)[k] == hv[k],
            decreases hv.len() - i,
        {
            let e = health[i];
            assert(health_views(health@)[i as int] == e@);
            let ghost prev = health@;
            health.set(i, EndpointHealth { endpoint_id: e.endpoint_id, failures: e.failures, retry_after: 0 });
            assert(health_views(health@)[i as int] == cleared_retries(hv)[i as int]);
            assert forall|k: int| 0 <= k < hv.len() && k != i implies #[trigger] health_views(
                health@,
            )[k] == health_views(prev)[k] by {
                assert(health@[k] == prev[k]);
            }
            i = i + 1;
        }
        assert(health_views(health@) =~= cleared_retries(hv));
        assert forall|a: int, b: int| 0 <= a < b < hv.len() implies (#[trigger] cleared_retries(
            hv,
        )[a]).endpoint_id != (#[trigger] cleared_retries(hv)[b]).endpoint_id by {
            assert(hv[a].endpoint_id != hv[b].endpoint_id);
        }
        self.health = health;
    }

    /// The earliest time at which a backed-off endpoint may be tried again, if any is
    /// backed off.
    #[verifier::loop_isolation(false)]
    pub fn next_retry_at(&self) -> (r: Option<u64>)
        ensures
            r == earliest_retry(self@.health),
    {
        let ghost hv = self@.health;
        let mut best: Option<u64> = None;
        let mut i: usize = 0;
        while i < self.health.len()
            invariant
                hv == health_views(self.health@),
                0 <= i <= hv.len(),
                best == earliest_retry(hv.take(i as int)),
            decreases hv.len() - i,
        {
            let x = self.health[i].retry_after;
            assert(hv.take(i + 1).drop_last() =~= hv.take(i as int));
            assert(hv.take(i + 1).last() == hv[i as int]);
            if x > 0 {
                best = match best {
                    None => Some(x),
                    Some(m) => Some(if x < m { x } else { m }),
                };
            }
            i = i + 1;
        }
        assert(hv.take(hv.len() as int) =~= hv);
        best
    }

    fn health_lookup(&self, id: &[u8; 16]) -> (r: (u32, u64))
        ensures
            r == health_of(self@.health, id@),
    {
        match find_health(&self.health, id) {
            Some(i) => {
                proof {
                    assert(self@.health == health_views(self.health@));
                    lemma_health_index_shape(self@.health, id@);
                    assert(health_index(self@.health, id@) == Some(i as int));
                    assert(0 <= i < self.health@.len());
                    assert(self@.health[i as int] == self.health@[i as int]@);
                }
                (self.health[i].failures, self.health[i].retry_after)
            },
            None => (0, 0),
        }
    }
}

impl TransportManager {
    fn advance(&mut self, cursor: &mut FlushCursor, now: u64) -> (r: FlushStep)
        requires
            manager_well_formed(old(self)@),
            forall|i: int|
                0 <= i < old(cursor)@.order.len() ==> #[trigger] old(cursor)@.order[i]
                    < old(self)@.directory.endpoints.len(),
            0 <= old(cursor)@.position <= old(cursor)@.order.len(),
            old(self)@.outbox.len() > 0,
        ensures
            final(self)@ == spec_advance(old(self)@, old(cursor)@, now).0,
            final(cursor)@ == spec_advance(old(self)@, old(cursor)@, now).1,
            r == spec_advance(old(self)@, old(cursor)@, now).2,
    {
        let ghost m = self@;
        let ghost c = cursor@;
        let n = cursor.order.len();
        let mut q: usize = cursor.position;
        while q < n
            invariant
                self@ == m,
                cursor@ == c,
                m == old(self)@,
                manager_well_formed(m),
                c == old(cursor)@,
                n == c.order.len(),
                c.position <= q <= n,
                m.outbox.len() > 0,
                forall|i: int| 0 <= i < c.order.len() ==> #[trigger] c.order[i] < m.directory.endpoints.len(),
                m.directory.endpoints == endpoint_views(self.directory.endpoints@),
                first_ready(m, c.order, c.position, now) == first_ready(m, c.order, q as int, now),
            decreases n - q,
        {
            let index = cursor.order[q];
            let id = self.directory.endpoints[index].endpoint_id;
            assert(m.directory.endpoints[index as int] == self.directory.endpoints@[index as int]@);
            let (_, retry) = self.health_lookup(&id);
            if retry <= now {
                let len = self.outbox[0].bytes.len() as u64;
                assert(self@.outbox[0] == self.outbox@[0]@);
                self.counters.attempts = self.counters.attempts.wrapping_add(1);
                self.counters.sent = self.counters.sent.wrapping_add(len);
                cursor.position = q;
                cursor.stage = FlushStage::AwaitWebsocket;
                assert(endpoint_ready(m, c.order[q as int], now));
                return FlushStep::Websocket(index);
            }
            q = q + 1;
        }
        cursor.stage = FlushStage::Finished;
        FlushStep::Unavailable
    }

    fn next_frame(&mut self, cursor: &mut FlushCursor, now: u64) -> (r: FlushStep)
        requires
            manager_well_formed(old(self)@),
        ensures
            final(self)@ == spec_next_frame(old(self)@, old(cursor)@, now).0,
            final(cursor)@ == spec_next_frame(old(self)@, old(cursor)@, now).1,
            r == spec_next_frame(old(self)@, old(cursor)@, now).2,
    {
        if self.outbox.len() == 0 {
            cursor.stage = FlushStage::Finished;
            return FlushStep::Complete;
        }
        let order = compute_flush_order(&self.directory.endpoints, &self.preferred_endpoint);
        let highest = if order.len() > 0 {
            let first = order[0];
            assert(self@.directory.endpoints[first as int] == self.directory.endpoints@[first as int]@);
            Some(self.directory.endpoints[order[0]].endpoint_id)
        } else {
            None
        };
        cursor.order = order;
        cursor.position = 0;
        cursor.highest = highest;
        self.advance(cursor, now)
    }

    fn delivered(&mut self, cursor: &mut FlushCursor, response: Vec<u8>, now: u64) -> (r: FlushStep)
        requires
            manager_well_formed(old(self)@),
            cursor_fits(old(self)@, old(cursor)@),
            old(cursor)@.stage != FlushStage::Finished,
        ensures
            final(self)@ == spec_delivered(old(self)@, old(cursor)@, response@, now).0,
            final(cursor)@ == spec_delivered(old(self)@, old(cursor)@, response@, now).1,
            r == spec_delivered(old(self)@, old(cursor)@, response@, now).2,
    {
        let ghost m = self@;
        let ghost c = cursor@;
        let index = cursor.order[cursor.position];
        let id = self.directory.endpoints[index].endpoint_id;
        assert(m.directory.endpoints[index as int] == self.directory.endpoints@[index as int]@);
        let ghost hv = self@.health;
        assert forall|a: int, b: int| 0 <= a < b < self.health@.len() implies (#[trigger] self.health@[a]).endpoint_id@ != (#[trigger] self.health@[b]).endpoint_id@ by {
            assert(hv[a] == self.health@[a]@ && hv[b] == self.health@[b]@);
        }
        let mut health: Vec<EndpointHealth> = Vec::new();
        std::mem::swap(&mut health, &mut self.health);
        record_health(&mut health, EndpointHealth { endpoint_id: id, failures: 0, retry_after: 0 });
        proof {
            lemma_health_distinct(health@);
        }
        self.health = health;
        self.counters.received = self.counters.received.wrapping_add(response.len() as u64);
        if !same_id(&self.preferred_endpoint, &id) && (self.preferred_endpoint.is_some() || !same_id(
            &cursor.highest,
            &id,
        )) {
            self.counters.relay_switches = self.counters.relay_switches.wrapping_add(1);
        }
        self.preferred_endpoint = Some(id);
        let ghost ob = self.outbox@;
        let mut outbox: Vec<QueuedFrame> = Vec::new();
        std::mem::swap(&mut outbox, &mut self.outbox);
        outbox.remove(0);
        assert(queued_views(outbox@) =~= queued_views(ob).drop_first());
        assert forall|a: int, b: int| 0 <= a < b < queued_views(outbox@).len() implies (#[trigger] queued_views(outbox@)[a]).client_message_id != (#[trigger] queued_views(outbox@)[b]).client_message_id by {
            assert(queued_views(outbox@)[a] == m.outbox[a + 1] && queued_views(outbox@)[b] == m.outbox[b + 1]);
        }
        self.outbox = outbox;
        let ghost rs = cursor.responses@;
        cursor.responses.push(response);
        assert(cursor@.responses =~= c.responses.push(response@));
        let ghost m2 = self@;
        assert(health_views(self.health@) == m2.health);
        assert forall|a: int, b: int| 0 <= a < b < m2.health.len() implies (#[trigger] m2.health[a]).endpoint_id != (#[trigger] m2.health[b]).endpoint_id by {
            assert(m2.health[a] == self.health@[a]@ && m2.health[b] == self.health@[b]@);
        }
        assert forall|a: int, b: int| 0 <= a < b < m2.outbox.len() implies (#[trigger] m2.outbox[a]).client_message_id != (#[trigger] m2.outbox[b]).client_message_id by {
            assert(m2.outbox[a] == m.outbox[a + 1] && m2.outbox[b] == m.outbox[b + 1]);
        }
        self.next_frame(cursor, now)
    }

    /// Starts a flush at `now`: the first step for the front frame, or `Complete` when
    /// the outbox is empty.
    pub fn begin_flush(&mut self, now: u64) -> (r: (FlushCursor, FlushStep))
        ensures
            final(self)@ == spec_next_frame(old(self)@, fresh_cursor(), now).0,
            r.0@ == spec_next_frame(old(self)@, fresh_cursor(), now).1,
            r.1 == spec_next_frame(old(self)@, fresh_cursor(), now).2,
            manager_well_formed(final(self)@),
            cursor_fits(final(self)@, r.0@),
    {
        proof {
            use_type_invariant(&*self);
        }
        let mut cursor = FlushCursor {
            order: Vec::new(),
            position: 0,
            highest: None,
            stage: FlushStage::Finished,
            responses: Vec::new(),
        };
        assert(cursor@.order =~= fresh_cursor().order);
        assert(cursor@.responses =~= fresh_cursor().responses);
        assert(cursor@ == fresh_cursor());
        proof {
            lemma_next_frame_keeps(self@, cursor@, now);
        }
        let step = self.next_frame(&mut cursor, now);
        (cursor, step)
    }

    /// Takes the WebSocket outcome for the endpoint that the last step named.
    pub fn websocket_outcome(
        &mut self,
        cursor: &mut FlushCursor,
        outcome: Result<Vec<u8>, TransportError>,
        now: u64,
    ) -> (r: FlushStep)
        requires
            cursor_fits(old(self)@, old(cursor)@),
            old(cursor)@.stage == FlushStage::AwaitWebsocket,
        ensures
            final(self)@ == spec_websocket_outcome(old(self)@, old(cursor)@, outcome_view(outcome), now).0,
            final(cursor)@ == spec_websocket_outcome(old(self)@, old(cursor)@, outcome_view(outcome), now).1,
            r == spec_websocket_outcome(old(self)@, old(cursor)@, outcome_view(outcome), now).2,
            manager_well_formed(final(self)@),
            cursor_fits(final(self)@, final(cursor)@),
    {
        proof {
            use_type_invariant(&*self);
            lemma_websocket_outcome_keeps(self@, cursor@, outcome_view(outcome), now);
        }
        match outcome {
            Ok(response) => self.delivered(cursor, response, now),
            Err(_) => {
                let len = self.outbox[0].bytes.len() as u64;
                assert(self@.outbox[0] == self.outbox@[0]@);
                self.counters.websocket_failures = self.counters.websocket_failures.wrapping_add(1);
                self.counters.attempts = self.counters.attempts.wrapping_add(1);
                self.counters.sent = self.counters.sent.wrapping_add(len);
                cursor.stage = FlushStage::AwaitHttps;
                FlushStep::Https(cursor.order[cursor.position])
            },
        }
    }

    /// Takes the HTTPS outcome for the endpoint that the last step named.
    pub fn https_outcome(
        &mut self,
        cursor: &mut FlushCursor,
        outcome: Result<Vec<u8>, TransportError>,
        now: u64,
    ) -> (r: FlushStep)
        requires
            cursor_fits(old(self)@, old(cursor)@),
            old(cursor)@.stage == FlushStage::AwaitHttps,
        ensures
            final(self)@ == spec_https_outcome(old(self)@, old(cursor)@, outcome_view(outcome), now).0,
            final(cursor)@ == spec_https_outcome(old(self)@, old(cursor)@, outcome_view(outcome), now).1,
            r == spec_https_outcome(old(self)@, old(cursor)@, outcome_view(outcome), now).2,
            manager_well_formed(final(self)@),
            cursor_fits(final(self)@, final(cursor)@),
    {
        proof {
            use_type_invariant(&*self);
            lemma_https_outcome_keeps(self@, cursor@, outcome_view(outcome), now);
        }
        match outcome {
            Ok(response) => self.delivered(cursor, response, now),
            Err(_) => {
                let ghost m = self@;
                let index = cursor.order[cursor.position];
                let id = self.directory.endpoints[index].endpoint_id;
                assert(m.directory.endpoints[index as int] == self.directory.endpoints@[index as int]@);
                self.counters.https_failures = self.counters.https_failures.wrapping_add(1);
                let (failures, retry) = self.health_lookup(&id);
                let failures = failures.saturating_add(1);
                let base: u64 = if failures < MAX_BACKOFF_EXPONENT {
                    1u64 << failures
                } else {
                    1u64 << MAX_BACKOFF_EXPONENT
                };
                assert(1 <= base <= 256) by (bit_vector)
                    requires
                        base == (if failures < 8u32 { 1u64 << failures } else { 1u64 << 8u32 }),
                ;
                let jitter = (id[0] as u64) % base;
                let retry_after = now.saturating_add(base + jitter);
                let ghost hv = self@.health;
                assert forall|a: int, b: int| 0 <= a < b < self.health@.len() implies (#[trigger] self.health@[a]).endpoint_id@ != (#[trigger] self.health@[b]).endpoint_id@ by {
                    assert(hv[a] == self.health@[a]@ && hv[b] == self.health@[b]@);
                }
                let e = EndpointHealth { endpoint_id: id, failures, retry_after };
                assert(e@ == failed_health(health_of(m.health, id@), id@, now));
                let mut health: Vec<EndpointHealth> = Vec::new();
                std::mem::swap(&mut health, &mut self.health);
                record_health(&mut health, e);
                proof {
                    lemma_health_distinct(health@);
                }
                self.health = health;
                let n = cursor.order.len();
                assert(cursor.position < n);
                cursor.position = cursor.position + 1;
                let ghost m2 = self@;
                assert forall|a: int, b: int| 0 <= a < b < m2.health.len() implies (#[trigger] m2.health[a]).endpoint_id != (#[trigger] m2.health[b]).endpoint_id by {
                    assert(m2.health[a] == self.health@[a]@ && m2.health[b] == self.health@[b]@);
                }
                self.advance(cursor, now)
            },
        }
    }
}

// ---------------------------------------------------------------------------
// Every step keeps the manager well formed
// ---------------------------------------------------------------------------
proof fn lemma_first_ready_range(m: ManagerView, order: Seq<usize>, from: int, now: u64)
    ensures
        first_ready(m, order, from, now) matches Some(q) ==> from <= q < order.len() && endpoint_ready(
            m,
            order[q],
            now,
        ),
    decreases order.len() - from,
{
    if 0 <= from < order.len() && !endpoint_ready(m, order[from], now) {
        lemma_first_ready_range(m, order, from + 1, now);
    }
}

proof fn lemma_health_distinct(h: Seq<EndpointHealth>)
    requires
        forall|i: int, j: int|
            0 <= i < j < h.len() ==> (#[trigger] h[i]).endpoint_id@ != (#[trigger] h[j]).endpoint_id@,
    ensures
        forall|i: int, j: int|
            0 <= i < j < health_views(h).len() ==> (#[trigger] health_views(h)[i]).endpoint_id != (
            #[trigger] health_views(h)[j]).endpoint_id,
{
    assert forall|i: int, j: int| 0 <= i < j < health_views(h).len() implies (#[trigger] health_views(h)[i]).endpoint_id != (#[trigger] health_views(h)[j]).endpoint_id by {
        assert(health_views(h)[i] == h[i]@ && health_views(h)[j] == h[j]@);
    }
}

proof fn lemma_set_health_unique(h: Seq<HealthView>, e: HealthView)
    requires
        forall|i: int, j: int| 0 <= i < j < h.len() ==> (#[trigger] h[i]).endpoint_id != (#[trigger] h[j]).endpoint_id,
    ensures
        forall|i: int, j: int|
            0 <= i < j < set_health(h, e).len() ==> (#[trigger] set_health(h, e)[i]).endpoint_id != (
            #[trigger] set_health(h, e)[j]).endpoint_id,
{
    lemma_health_index_shape(h, e.endpoint_id);
}

proof fn lemma_advance_keeps(m: ManagerView, c: CursorView, now: u64)
    requires
        manager_well_formed(m),
        forall|i: int| 0 <= i < c.order.len() ==> #[trigger] c.order[i] < m.directory.endpoints.len(),
        0 <= c.position <= c.order.len(),
        m.outbox.len() > 0,
    ensures
        manager_well_formed(spec_advance(m, c, now).0),
        cursor_fits(spec_advance(m, c, now).0, spec_advance(m, c, now).1),
{
    lemma_first_ready_range(m, c.order, c.position, now);
}

proof fn lemma_next_frame_keeps(m: ManagerView, c: CursorView, now: u64)
    requires
        manager_well_formed(m),
        forall|i: int| 0 <= i < c.order.len() ==> #[trigger] c.order[i] < m.directory.endpoints.len(),
    ensures
        manager_well_formed(spec_next_frame(m, c, now).0),
        cursor_fits(spec_next_frame(m, c, now).0, spec_next_frame(m, c, now).1),
{
    if m.outbox.len() > 0 {
        let order = flush_order(m);
        crate::transport::lemma_stable_order_shape(
            m.directory.endpoints.len(),
            flush_before(m.preferred_endpoint, m.directory.endpoints),
        );
        let highest = if order.len() > 0 {
            Some(m.directory.endpoints[order[0] as int].endpoint_id)
        } else {
            None
        };
        lemma_advance_keeps(m, CursorView { order, position: 0, highest, ..c }, now);
    }
}

proof fn lemma_delivered_keeps(m: ManagerView, c: CursorView, response: Seq<u8>, now: u64)
    requires
        manager_well_formed(m),
        cursor_fits(m, c),
        c.stage != FlushStage::Finished,
    ensures
        manager_well_formed(spec_delivered(m, c, response, now).0),
        cursor_fits(spec_delivered(m, c, response, now).0, spec_delivered(m, c, response, now).1),
{
    let id = m.directory.endpoints[c.order[c.position] as int].endpoint_id;
    let e = HealthView { endpoint_id: id, failures: 0, retry_after: 0 };
    lemma_set_health_unique(m.health, e);
    let counters = ByteCounters {
        received: m.counters.received.wrapping_add(response.len() as u64),
        relay_switches: if is_relay_switch(m.preferred_endpoint, c.highest, id) {
            m.counters.relay_switches.wrapping_add(1)
        } else {
            m.counters.relay_switches
        },
        ..m.counters
    };
    let m2 = ManagerView {
        health: set_health(m.health, e),
        counters,
        preferred_endpoint: Some(id),
        outbox: m.outbox.drop_first(),
        ..m
    };
    assert forall|a: int, b: int| 0 <= a < b < m2.outbox.len() implies (#[trigger] m2.outbox[a]).client_message_id
        != (#[trigger] m2.outbox[b]).client_message_id by {
        assert(m2.outbox[a] == m.outbox[a + 1] && m2.outbox[b] == m.outbox[b + 1]);
    }
    lemma_next_frame_keeps(m2, CursorView { responses: c.responses.push(response), ..c }, now);
}

proof fn lemma_websocket_outcome_keeps(
    m: ManagerView,
    c: CursorView,
    outcome: Result<Seq<u8>, TransportError>,
    now: u64,
)
    requires
        manager_well_formed(m),
        cursor_fits(m, c),
        c.stage == FlushStage::AwaitWebsocket,
    ensures
        manager_well_formed(spec_websocket_outcome(m, c, outcome, now).0),
        cursor_fits(spec_websocket_outcome(m, c, outcome, now).0, spec_websocket_outcome(m, c, outcome, now).1),
{
    if let Ok(response) = outcome {
        lemma_delivered_keeps(m, c, response, now);
    }
}

proof fn lemma_https_outcome_keeps(
    m: ManagerView,
    c: CursorView,
    outcome: Result<Seq<u8>, TransportError>,
    now: u64,
)
    requires
        manager_well_formed(m),
        cursor_fits(m, c),
        c.stage == FlushStage::AwaitHttps,
    ensures
        manager_well_formed(spec_https_outcome(m, c, outcome, now).0),
        cursor_fits(spec_https_outcome(m, c, outcome, now).0, spec_https_outcome(m, c, outcome, now).1),
{
    match outcome {
        Ok(response) => {
            lemma_delivered_keeps(m, c, response, now);
        },
        Err(_) => {
            let id = m.directory.endpoints[c.order[c.position] as int].endpoint_id;
            let e = failed_health(health_of(m.health, id), id, now);
            lemma_set_health_unique(m.health, e);
            let m2 = ManagerView {
                counters: ByteCounters {
                    https_failures: m.counters.https_failures.wrapping_add(1),
                    ..m.counters
                },
                health: set_health(m.health, e),
                ..m
            };
            lemma_advance_keeps(m2, CursorView { position: c.position + 1, ..c }, now);
        },
    }
}

// ---------------------------------------------------------------------------
// Laws of the manager
// ---------------------------------------------------------------------------
/// Queuing a frame whose client message ID already waits changes nothing: a frame is
/// never queued twice.
pub proof fn lemma_enqueue_idempotent(m: ManagerView, id: Seq<u8>, bytes: Seq<u8>, again: Seq<u8>)
    ensures
        spec_enqueue(spec_enqueue(m, id, bytes), id, again) == spec_enqueue(m, id, bytes),
{
    let m1 = spec_enqueue(m, id, bytes);
    if !outbox_has(m.outbox, id) {
        let k = m.outbox.len() as int;
        assert(m1.outbox[k].client_message_id == id);
    }
}

/// A failed send never removes a frame: after a WebSocket or an HTTPS failure the
/// outbox is what it was.
pub proof fn lemma_failure_keeps_outbox(
    m: ManagerView,
    c: CursorView,
    error: TransportError,
    now: u64,
)
    ensures
        spec_websocket_outcome(m, c, Err(error), now).0.outbox == m.outbox,
        spec_https_outcome(m, c, Err(error), now).0.outbox == m.outbox,
{
}

/// An answered send removes exactly the front frame and keeps the answer, after the
/// answers that came before it.
pub proof fn lemma_answer_takes_front(
    m: ManagerView,
    c: CursorView,
    response: Seq<u8>,
    now: u64,
)
    ensures
        spec_websocket_outcome(m, c, Ok(response), now).0.outbox == m.outbox.drop_first(),
        spec_websocket_outcome(m, c, Ok(response), now).1.responses == c.responses.push(response),
        spec_https_outcome(m, c, Ok(response), now).0.outbox == m.outbox.drop_first(),
        spec_https_outcome(m, c, Ok(response), now).1.responses == c.responses.push(response),
{
}

proof fn lemma_health_of_set(h: Seq<HealthView>, e: HealthView, id: Seq<u8>)
    ensures
        health_of(set_health(h, e), id) == if id == e.endpoint_id {
            (e.failures, e.retry_after)
        } else {
            health_of(h, id)
        },
{
    let h2 = set_health(h, e);
    lemma_health_index_shape(h, e.endpoint_id);
    lemma_health_index_shape(h, id);
    lemma_health_index_shape(h2, id);
    match health_index(h, e.endpoint_id) {
        Some(i) => {
            if id == e.endpoint_id {
                assert(h2[i] == e);
                assert forall|k: int| i < k < h2.len() implies (#[trigger] h2[k]).endpoint_id != id by {
                    assert(h2[k] == h[k]);
                }
                lemma_health_index_tail(h2, id, i + 1);
                assert(h2.take(i + 1).last() == h2[i]);
            } else {
                lemma_health_index_agrees(h, h2, id);
            }
        },
        None => {
            if id == e.endpoint_id {
                assert(h2.last() == e);
            } else {
                assert(h2.drop_last() =~= h);
            }
        },
    }
}

/// Two record lists that differ only at records of other endpoints agree on `id`.
proof fn lemma_health_index_agrees(h: Seq<HealthView>, g: Seq<HealthView>, id: Seq<u8>)
    requires
        h.len() == g.len(),
        forall|k: int|
            0 <= k < h.len() ==> (#[trigger] h[k]).endpoint_id == id || g[k].endpoint_id == id ==> h[k]
                == g[k],
        forall|k: int| 0 <= k < h.len() ==> ((#[trigger] h[k]).endpoint_id == id) == (g[k].endpoint_id == id),
    ensures
        health_index(h, id) == health_index(g, id),
        health_of(h, id) == health_of(g, id),
    decreases h.len(),
{
    lemma_health_index_shape(h, id);
    lemma_health_index_shape(g, id);
    if h.len() > 0 {
        assert(h.last() == h[h.len() - 1] && g.last() == g[g.len() - 1]);
        if h.last().endpoint_id != id {
            assert forall|k: int| 0 <= k < h.len() - 1 implies (#[trigger] h.drop_last()[k]) == h[k]
                && g.drop_last()[k] == g[k] by {}
            lemma_health_index_agrees(h.drop_last(), g.drop_last(), id);
        }
    }
}

/// After an HTTPS failure the endpoint backs off: it cannot be tried again at the same
/// time, unless the clock is within nine minutes of the end of time, where the retry
/// time saturates.
pub proof fn lemma_failure_backs_off(m: ManagerView, c: CursorView, error: TransportError, now: u64)
    requires
        0 <= c.position < c.order.len(),
        c.order[c.position] < m.directory.endpoints.len(),
        m.directory.endpoints[c.order[c.position] as int].endpoint_id.len() == 16,
        now < u64::MAX - 512,
    ensures
        health_of(
            spec_https_outcome(m, c, Err(error), now).0.health,
            m.directory.endpoints[c.order[c.position] as int].endpoint_id,
        ).1 > now,
{
    let id = m.directory.endpoints[c.order[c.position] as int].endpoint_id;
    let e = failed_health(health_of(m.health, id), id, now);
    lemma_health_of_set(m.health, e, id);
    let f = health_of(m.health, id).0.saturating_add(1);
    assert(f >= 1);
    assert(f >= 1 ==> 2 <= (if f < 8u32 { 1u64 << f } else { 1u64 << 8u32 }) <= 256) by (bit_vector);
}

proof fn lemma_health_index_cleared(h: Seq<HealthView>, id: Seq<u8>)
    ensures
        health_index(cleared_retries(h), id) == health_index(h, id),
    decreases h.len(),
{
    if h.len() > 0 {
        assert(cleared_retries(h).drop_last() =~= cleared_retries(h.drop_last()));
        lemma_health_index_cleared(h.drop_last(), id);
    }
}

/// After a network change every endpoint may be tried at once, and keeps its failure
/// count.
pub proof fn lemma_network_change_clears(h: Seq<HealthView>, id: Seq<u8>)
    ensures
        health_of(cleared_retries(h), id) == (health_of(h, id).0, 0u64),
{
    lemma_health_index_cleared(h, id);
    lemma_health_index_shape(h, id);
}

/// A directory that `verify` accepts is not older than the minimum, is current at `now`,
/// and carries a signature by the key over its signing bytes.
pub proof fn lemma_accepted_directory(d: DirectoryView, key: Seq<u8>, now: u64, minimum_version: u64)
    requires
        spec_verify_directory(d, key, now, minimum_version) is Ok,
    ensures
        d.version >= minimum_version,
        crate::transport::directory_current(d, now),
        crate::transport::spec_signing_bytes(d) matches Ok(b) && crate::primitives::ed25519_accepts(
            key,
            b,
            d.signature,
        ),
{
}


/// The rank by which a flush orders endpoints: the preferred endpoint ahead of all others,
/// then ascending priority.
pub open spec fn flush_rank(preferred: Option<Seq<u8>>, e: EndpointView) -> int {
    (if preferred == Some(e.endpoint_id) {
        0int
    } else {
        0x10000int
    }) + e.priority as int
}

/// A flush tries each endpoint of the directory once: the preferred endpoint first, the
/// others by ascending priority, endpoints of equal rank in directory order.
pub proof fn lemma_flush_order(m: ManagerView)
    requires
        manager_well_formed(m),
    ensures
        flush_order(m).len() == m.directory.endpoints.len(),
        forall|p: int| 0 <= p < flush_order(m).len() ==> #[trigger] flush_order(m)[p] < m.directory.endpoints.len(),
        forall|p: int, q: int|
            0 <= p < q < flush_order(m).len() ==> {
                let a = #[trigger] flush_order(m)[p];
                let b = #[trigger] flush_order(m)[q];
                let ra = flush_rank(m.preferred_endpoint, m.directory.endpoints[a as int]);
                let rb = flush_rank(m.preferred_endpoint, m.directory.endpoints[b as int]);
                ra < rb || (ra == rb && a < b)
            },
{
    let eps = m.directory.endpoints;
    let before = flush_before(m.preferred_endpoint, eps);
    let key = |i: usize| flush_rank(m.preferred_endpoint, eps[i as int]);
    assert forall|i: usize, j: usize| #[trigger] before(i, j) == (key(i) < key(j)) by {
        assert(eps[i as int].priority < 0x10000 && eps[j as int].priority < 0x10000);
    }
    crate::transport::lemma_stable_order_shape(eps.len(), before);
    crate::transport::lemma_stable_order_keyed(eps.len(), before, key);
    let order = flush_order(m);
    assert forall|p: int, q: int| 0 <= p < q < order.len() implies {
        let a = #[trigger] order[p];
        let b = #[trigger] order[q];
        let ra = flush_rank(m.preferred_endpoint, eps[a as int]);
        let rb = flush_rank(m.preferred_endpoint, eps[b as int]);
        ra < rb || (ra == rb && a < b)
    } by {
        assert(key(order[p]) < key(order[q]) || (key(order[p]) == key(order[q]) && order[p] < order[q]));
    }
}


/// One step of a flush: the answer to the send that `step` asked for moves the manager
/// and the cursor on; a finished flush stays where it is.
pub open spec fn flush_step(
    m: ManagerView,
    c: CursorView,
    step: FlushStep,
    outcome: Result<Seq<u8>, TransportError>,
    now: u64,
) -> (ManagerView, CursorView, FlushStep) {
    match step {
        FlushStep::Websocket(_) => spec_websocket_outcome(m, c, outcome, now),
        FlushStep::Https(_) => spec_https_outcome(m, c, outcome, now),
        _ => (m, c, step),
    }
}

/// A flush run: the steps that follow the senders' answers, one answer per step.
pub open spec fn flush_run(
    m: ManagerView,
    c: CursorView,
    step: FlushStep,
    outcomes: Seq<Result<Seq<u8>, TransportError>>,
    now: u64,
) -> (ManagerView, CursorView, FlushStep)
    decreases outcomes.len(),
{
    if outcomes.len() == 0 {
        (m, c, step)
    } else {
        let next = flush_step(m, c, step, outcomes[0], now);
        flush_run(next.0, next.1, next.2, outcomes.drop_first(), now)
    }
}

/// What holds at every step of a flush of an outbox that started as `start`: the queued
/// frames are the end of `start` behind the delivered ones, a send is asked for only
/// while a frame waits, a completed flush left none and an unavailable one left some; a
/// send goes to the endpoint at the cursor's place in the try order, a WebSocket send
/// only to an endpoint that may be tried at `now`.
pub open spec fn flush_state_ok(
    start: Seq<QueuedView>,
    m: ManagerView,
    c: CursorView,
    step: FlushStep,
    now: u64,
) -> bool {
    &&& c.responses.len() <= start.len()
    &&& m.outbox == start.skip(c.responses.len() as int)
    &&& (step is Websocket || step is Https || step is Unavailable) ==> m.outbox.len() > 0
    &&& step is Complete ==> m.outbox.len() == 0
    &&& step matches FlushStep::Websocket(i) ==> sends_at_cursor(m, c, i, FlushStage::AwaitWebsocket)
        && endpoint_ready(m, i, now)
    &&& step matches FlushStep::Https(i) ==> sends_at_cursor(m, c, i, FlushStage::AwaitHttps)
}

/// A send to the endpoint at index `i` is the one at the cursor's place in the manager's
/// try order, and the cursor waits for its answer.
pub open spec fn sends_at_cursor(m: ManagerView, c: CursorView, i: usize, stage: FlushStage) -> bool {
    &&& c.stage == stage
    &&& c.order == flush_order(m)
    &&& 0 <= c.position < c.order.len()
    &&& i == c.order[c.position]
}

proof fn lemma_next_frame_ok(start: Seq<QueuedView>, m: ManagerView, c: CursorView, now: u64)
    requires
        c.responses.len() <= start.len(),
        m.outbox == start.skip(c.responses.len() as int),
    ensures
        flush_state_ok(
            start,
            spec_next_frame(m, c, now).0,
            spec_next_frame(m, c, now).1,
            spec_next_frame(m, c, now).2,
            now,
        ),
{
    lemma_first_ready_range(m, flush_order(m), 0, now);
}

proof fn lemma_flush_step_ok(
    start: Seq<QueuedView>,
    m: ManagerView,
    c: CursorView,
    step: FlushStep,
    outcome: Result<Seq<u8>, TransportError>,
    now: u64,
)
    requires
        flush_state_ok(start, m, c, step, now),
    ensures
        flush_state_ok(
            start,
            flush_step(m, c, step, outcome, now).0,
            flush_step(m, c, step, outcome, now).1,
            flush_step(m, c, step, outcome, now).2,
            now,
        ),
{
    if step is Websocket || step is Https {
        match outcome {
            Ok(response) => {
                let n = c.responses.len() as int;
                assert(m.outbox.drop_first() =~= start.skip(n + 1));
                lemma_next_frame_ok(
                    start,
                    delivered_manager(m, c, response),
                    CursorView { responses: c.responses.push(response), ..c },
                    now,
                );
            },
            Err(_) => {
                if step is Https {
                    let id = m.directory.endpoints[c.order[c.position] as int].endpoint_id;
                    let m2 = ManagerView {
                        counters: ByteCounters {
                            https_failures: m.counters.https_failures.wrapping_add(1),
                            ..m.counters
                        },
                        health: set_health(m.health, failed_health(health_of(m.health, id), id, now)),
                        ..m
                    };
                    lemma_first_ready_range(m2, c.order, c.position + 1, now);
                }
            },
        }
    }
}

/// The next retry time is the minimum of the records' nonzero retry times: it is one of
/// them and no later than any, and there is none exactly when every retry time is zero.
pub proof fn lemma_earliest_retry_is_minimum(h: Seq<HealthView>)
    ensures
        earliest_retry(h) is None <==> forall|i: int| 0 <= i < h.len() ==> #[trigger] h[i].retry_after == 0,
        earliest_retry(h) matches Some(t) ==> t > 0 && (exists|i: int| 0 <= i < h.len() && #[trigger] h[i].retry_after
            == t) && forall|i: int| 0 <= i < h.len() && #[trigger] h[i].retry_after > 0 ==> t <= h[i].retry_after,
    decreases h.len(),
{
    if h.len() > 0 {
        let init = h.drop_last();
        lemma_earliest_retry_is_minimum(init);
        assert forall|i: int| 0 <= i < init.len() implies #[trigger] init[i] == h[i] by {}
        let last = h.len() - 1;
        assert(h[last] == h.last());
        match earliest_retry(h) {
            Some(t) => {
                match earliest_retry(init) {
                    Some(m) => {
                        let k = choose|k: int| 0 <= k < init.len() && #[trigger] init[k].retry_after == m;
                        assert(h[k].retry_after == m);
                    },
                    None => {},
                }
                if t == h.last().retry_after {
                    assert(h[last].retry_after == t);
                }
                assert forall|i: int| 0 <= i < h.len() && #[trigger] h[i].retry_after > 0 implies t
                    <= h[i].retry_after by {
                    if i < last {
                        assert(init[i].retry_after == h[i].retry_after);
                    }
                }
            },
            None => {
                assert forall|i: int| 0 <= i < h.len() implies #[trigger] h[i].retry_after == 0 by {
                    if i < last {
                        assert(init[i].retry_after == h[i].retry_after);
                    }
                }
            },
        }
        if forall|i: int| 0 <= i < h.len() ==> #[trigger] h[i].retry_after == 0 {
            assert(h[last].retry_after == 0);
            assert forall|i: int| 0 <= i < init.len() implies #[trigger] init[i].retry_after == 0 by {
                assert(h[i].retry_after == 0);
            }
        }
    }
}

/// The backoff doubles with each failure in a row, from 2 seconds after the first, and
/// stops growing at 256 seconds from the eighth failure on; the retry time of a failed
/// endpoint lies at least one backoff and less than two after `now` (where that fits in
/// a `u64`), the jitter being the endpoint ID's first byte modulo the backoff.
pub proof fn lemma_backoff_schedule(old: (u32, u64), id: Seq<u8>, now: u64)
    requires
        id.len() > 0,
    ensures
        backoff_base(0) == 1,
        backoff_base(1) == 2,
        backoff_base(2) == 4,
        backoff_base(3) == 8,
        forall|f: u32| 1 <= f < 8 ==> #[trigger] backoff_base(f) == 2 * backoff_base((f - 1) as u32),
        forall|f: u32| f >= 8 ==> #[trigger] backoff_base(f) == 256,
        ({
            let e = failed_health(old, id, now);
            let base = backoff_base(e.failures);
            &&& e.failures == old.0.saturating_add(1)
            &&& e.endpoint_id == id
            &&& now + 2 * base <= u64::MAX ==> now + base <= e.retry_after < now + 2 * base
        }),
{
    assert((1u64 << 0u32) == 1 && (1u64 << 1u32) == 2 && (1u64 << 2u32) == 4 && (1u64 << 3u32) == 8
        && (1u64 << 8u32) == 256) by (bit_vector);
    assert forall|f: u32| 1 <= f < 8 implies #[trigger] backoff_base(f) == 2 * backoff_base((f - 1) as u32) by {
        let g = (f - 1) as u32;
        assert((1u64 << f) == 2 * (1u64 << g)) by (bit_vector)
            requires
                1 <= f < 8,
                g == f - 1,
        ;
    }
    let failures = old.0.saturating_add(1);
    let base = backoff_base(failures);
    assert(1 <= base <= 256) by (bit_vector)
        requires
            base == (if failures < 8u32 { 1u64 << failures } else { 1u64 << 8u32 }),
    ;
}

/// A whole flush, whatever the senders answer: the frames still queued are the
/// undelivered end of the outbox, unchanged and in order, behind exactly as many
/// delivered frames as there are kept answers; a flush that completes delivered every
/// frame, and one that ends unavailable keeps at least one. Every send it asks for goes
/// to the endpoint at the cursor's place in the manager's try order (`flush_order`), and
/// a WebSocket send only to an endpoint whose retry time has come.
pub proof fn lemma_flush_run(m: ManagerView, outcomes: Seq<Result<Seq<u8>, TransportError>>, now: u64)
    ensures
        ({
            let first = spec_next_frame(m, fresh_cursor(), now);
            let last = flush_run(first.0, first.1, first.2, outcomes, now);
            &&& last.1.responses.len() <= m.outbox.len()
            &&& last.0.outbox == m.outbox.skip(last.1.responses.len() as int)
            &&& last.2 is Complete ==> last.1.responses.len() == m.outbox.len()
            &&& last.2 is Unavailable ==> last.1.responses.len() < m.outbox.len()
            &&& last.2 matches FlushStep::Websocket(i) ==> sends_at_cursor(last.0, last.1, i, FlushStage::AwaitWebsocket)
                && endpoint_ready(last.0, i, now)
            &&& last.2 matches FlushStep::Https(i) ==> sends_at_cursor(last.0, last.1, i, FlushStage::AwaitHttps)
        }),
{
    assert(m.outbox.skip(0) =~= m.outbox);
    lemma_next_frame_ok(m.outbox, m, fresh_cursor(), now);
    let first = spec_next_frame(m, fresh_cursor(), now);
    lemma_flush_run_ok(m.outbox, first.0, first.1, first.2, outcomes, now);
}

/// A finished flush asks for nothing more: after `Complete` or `Unavailable` no answer
/// changes the manager or the cursor, so no later frame is sent.
pub proof fn lemma_flush_run_stops(
    m: ManagerView,
    c: CursorView,
    step: FlushStep,
    outcomes: Seq<Result<Seq<u8>, TransportError>>,
    now: u64,
)
    requires
        step is Complete || step is Unavailable,
    ensures
        flush_run(m, c, step, outcomes, now) == (m, c, step),
    decreases outcomes.len(),
{
    if outcomes.len() > 0 {
        lemma_flush_run_stops(m, c, step, outcomes.drop_first(), now);
    }
}

proof fn lemma_flush_run_ok(
    start: Seq<QueuedView>,
    m: ManagerView,
    c: CursorView,
    step: FlushStep,
    outcomes: Seq<Result<Seq<u8>, TransportError>>,
    now: u64,
)
    requires
        flush_state_ok(start, m, c, step, now),
    ensures
        flush_state_ok(
            start,
            flush_run(m, c, step, outcomes, now).0,
            flush_run(m, c, step, outcomes, now).1,
            flush_run(m, c, step, outcomes, now).2,
            now,
        ),
    decreases outcomes.len(),
{
    if outcomes.len() > 0 {
        lemma_flush_step_ok(start, m, c, step, outcomes[0], now);
        let next = flush_step(m, c, step, outcomes[0], now);
        lemma_flush_run_ok(start, next.0, next.1, next.2, outcomes.drop_first(), now);
    }
}


/// The sends a flush asks for while the senders give `outcomes`, one per answer taken:
/// the step that asked (transport and endpoint index), the frame it carried, and the
/// position in the try order of the endpoint it went to.
pub open spec fn flush_sends(
    m: ManagerView,
    c: CursorView,
    step: FlushStep,
    outcomes: Seq<Result<Seq<u8>, TransportError>>,
    now: u64,
) -> Seq<(FlushStep, Seq<u8>, int)>
    decreases outcomes.len(),
{
    if outcomes.len() == 0 || !(step is Websocket || step is Https) {
        Seq::empty()
    } else {
        let next = flush_step(m, c, step, outcomes[0], now);
        seq![(step, m.outbox[0].bytes, c.position)] + flush_sends(
            next.0,
            next.1,
            next.2,
            outcomes.drop_first(),
            now,
        )
    }
}

/// The answer in one outcome: its reply, or nothing for a failure.
pub open spec fn answer_of(outcome: Result<Seq<u8>, TransportError>) -> Seq<Seq<u8>> {
    match outcome {
        Ok(v) => seq![v],
        Err(_) => Seq::empty(),
    }
}

/// The answers among `outcomes`, in order.
pub open spec fn ok_answers(outcomes: Seq<Result<Seq<u8>, TransportError>>) -> Seq<Seq<u8>>
    decreases outcomes.len(),
{
    if outcomes.len() == 0 {
        Seq::empty()
    } else {
        answer_of(outcomes[0]) + ok_answers(outcomes.drop_first())
    }
}

proof fn lemma_ok_answers_take(outcomes: Seq<Result<Seq<u8>, TransportError>>, k: int)
    requires
        0 <= k < outcomes.len(),
    ensures
        ok_answers(outcomes.take(k + 1)) == answer_of(outcomes[0]) + ok_answers(outcomes.drop_first().take(k)),
{
    assert(outcomes.take(k + 1).drop_first() =~= outcomes.drop_first().take(k));
    assert(outcomes.take(k + 1)[0] == outcomes[0]);
}

proof fn lemma_send_step(
    start: Seq<QueuedView>,
    m: ManagerView,
    c: CursorView,
    step: FlushStep,
    outcome: Result<Seq<u8>, TransportError>,
    now: u64,
)
    requires
        flush_state_ok(start, m, c, step, now),
        step is Websocket || step is Https,
    ensures
        ({
            let next = flush_step(m, c, step, outcome, now);
            &&& next.1.responses == c.responses + answer_of(outcome)
            &&& next.2 matches FlushStep::Https(j) ==> step == FlushStep::Websocket(j) && outcome is Err
                && next.1.position == c.position
            &&& next.2 is Websocket && outcome is Err ==> step is Https && next.1.position > c.position
        }),
{
    match outcome {
        Ok(v) => {
            assert(c.responses + answer_of(outcome) =~= c.responses.push(v));
        },
        Err(_) => {
            assert(c.responses + answer_of(outcome) =~= c.responses);
            if step is Https {
                let id = m.directory.endpoints[c.order[c.position] as int].endpoint_id;
                let m2 = ManagerView {
                    counters: ByteCounters {
                        https_failures: m.counters.https_failures.wrapping_add(1),
                        ..m.counters
                    },
                    health: set_health(m.health, failed_health(health_of(m.health, id), id, now)),
                    ..m
                };
                lemma_first_ready_range(m2, c.order, c.position + 1, now);
            }
        },
    }
}

#[verifier::spinoff_prover]
proof fn lemma_flush_sends_shape(
    start: Seq<QueuedView>,
    m: ManagerView,
    c: CursorView,
    step: FlushStep,
    outcomes: Seq<Result<Seq<u8>, TransportError>>,
    now: u64,
)
    requires
        flush_state_ok(start, m, c, step, now),
    ensures
        ({
            let sends = flush_sends(m, c, step, outcomes, now);
            let last = flush_run(m, c, step, outcomes, now);
            let n = sends.len() as int;
            &&& n <= outcomes.len()
            &&& last.1.responses == c.responses + ok_answers(outcomes.take(n))
            &&& n > 0 ==> sends[0].0 == step && sends[0].2 == c.position
            &&& forall|k: int| 0 <= k < n ==> (#[trigger] sends[k]).1 == start[(c.responses.len() + ok_answers(outcomes.take(k)).len()) as int].bytes
            &&& forall|k: int| 0 < k < n ==> ((#[trigger] sends[k]).0 matches FlushStep::Https(i) ==> sends[k - 1].0
                == FlushStep::Websocket(i) && outcomes[k - 1] is Err && sends[k].2 == sends[k - 1].2)
            &&& forall|k: int| 0 < k < n ==> ((#[trigger] sends[k]).0 is Websocket && outcomes[k - 1] is Err ==> sends[k
                - 1].0 is Https && sends[k].2 > sends[k - 1].2)
            &&& n < outcomes.len() ==> (last.2 is Complete || last.2 is Unavailable)
        }),
    decreases outcomes.len(),
{
    let sends = flush_sends(m, c, step, outcomes, now);
    assert(outcomes.take(0) =~= Seq::<Result<Seq<u8>, TransportError>>::empty());
    assert(ok_answers(outcomes.take(0)) == Seq::<Seq<u8>>::empty());
    if outcomes.len() == 0 || !(step is Websocket || step is Https) {
        assert(c.responses + ok_answers(outcomes.take(0)) =~= c.responses);
        if outcomes.len() > 0 {
            lemma_flush_run_stops(m, c, step, outcomes, now);
        }
    } else {
        let next = flush_step(m, c, step, outcomes[0], now);
        let rest = outcomes.drop_first();
        lemma_flush_step_ok(start, m, c, step, outcomes[0], now);
        lemma_send_step(start, m, c, step, outcomes[0], now);
        lemma_flush_sends_shape(start, next.0, next.1, next.2, rest, now);
        let tail = flush_sends(next.0, next.1, next.2, rest, now);
        let n = sends.len() as int;
        assert(sends == seq![(step, m.outbox[0].bytes, c.position)] + tail);
        let first = answer_of(outcomes[0]);
        lemma_ok_answers_take(outcomes, n - 1);
        assert(c.responses + ok_answers(outcomes.take(n)) =~= next.1.responses + ok_answers(rest.take(n - 1)));
        assert forall|k: int| 0 <= k < n implies (#[trigger] sends[k]).1 == start[(c.responses.len() + ok_answers(outcomes.take(k)).len()) as int].bytes by {
            if k == 0 {
                assert(m.outbox[0] == start[c.responses.len() as int]);
            } else {
                assert(sends[k] == tail[k - 1]);
                lemma_ok_answers_take(outcomes, k - 1);
            }
        }
        assert forall|k: int| 0 < k < n implies ((#[trigger] sends[k]).0 matches FlushStep::Https(i)
            ==> sends[k - 1].0 == FlushStep::Websocket(i) && outcomes[k - 1] is Err && sends[k].2
            == sends[k - 1].2) by {
            assert(sends[k] == tail[k - 1]);
            if k >= 2 {
                assert(sends[k - 1] == tail[k - 2]);
                assert(outcomes[k - 1] == rest[k - 2]);
            }
        }
        assert forall|k: int| 0 < k < n implies ((#[trigger] sends[k]).0 is Websocket && outcomes[k - 1] is Err
            ==> sends[k - 1].0 is Https && sends[k].2 > sends[k - 1].2) by {
            assert(sends[k] == tail[k - 1]);
            if k >= 2 {
                assert(sends[k - 1] == tail[k - 2]);
                assert(outcomes[k - 1] == rest[k - 2]);
            }
        }
    }
}

/// The calls of a whole flush, whatever the senders answer. Each send carries the front
/// frame not yet answered: the frames go in the order they were queued, and a frame is
/// sent again only after a failed send. The answers kept are exactly the replies of the
/// successful sends, in order. An HTTPS send goes to the endpoint whose WebSocket send
/// just failed; after a failed HTTPS send the next WebSocket send goes to an endpoint
/// later in the try order. The first send is a WebSocket send. Once the flush stops
/// asking, it has completed or is unavailable.
pub proof fn lemma_flush_calls(m: ManagerView, outcomes: Seq<Result<Seq<u8>, TransportError>>, now: u64)
    ensures
        ({
            let first = spec_next_frame(m, fresh_cursor(), now);
            let sends = flush_sends(first.0, first.1, first.2, outcomes, now);
            let last = flush_run(first.0, first.1, first.2, outcomes, now);
            let n = sends.len() as int;
            &&& n <= outcomes.len()
            &&& last.1.responses == ok_answers(outcomes.take(n))
            &&& n > 0 ==> sends[0].0 is Websocket
            &&& forall|k: int| 0 <= k < n ==> (#[trigger] sends[k]).1 == m.outbox[ok_answers(outcomes.take(k)).len()
                as int].bytes
            &&& forall|k: int| 0 < k < n ==> ((#[trigger] sends[k]).0 matches FlushStep::Https(i) ==> sends[k - 1].0
                == FlushStep::Websocket(i) && outcomes[k - 1] is Err && sends[k].2 == sends[k - 1].2)
            &&& forall|k: int| 0 < k < n ==> ((#[trigger] sends[k]).0 is Websocket && outcomes[k - 1] is Err ==> sends[k
                - 1].0 is Https && sends[k].2 > sends[k - 1].2)
            &&& n < outcomes.len() ==> (last.2 is Complete || last.2 is Unavailable)
        }),
{
    assert(m.outbox.skip(0) =~= m.outbox);
    lemma_next_frame_ok(m.outbox, m, fresh_cursor(), now);
    let first = spec_next_frame(m, fresh_cursor(), now);
    lemma_flush_sends_shape(m.outbox, first.0, first.1, first.2, outcomes, now);
    let n = flush_sends(first.0, first.1, first.2, outcomes, now).len() as int;
    assert(first.1.responses == Seq::<Seq<u8>>::empty());
    assert(first.1.responses + ok_answers(outcomes.take(n)) =~= ok_answers(outcomes.take(n)));
}

} // verus!
