//! Signed relay selection with WebSocket primary and HTTPS-CBOR fallback.
//!
//! The relay directory is a canonical, signed byte layout. The transport manager keeps
//! the outbox, per-endpoint health and byte counters, and decides which endpoint and
//! which transport a frame goes to next; the caller performs the sends.
use crate::bytes::{
    array16_at, array64_at, be16, be16_value, be64, be64_value, lemma_be16_canonical,
    lemma_be16_round_trip, lemma_be64_canonical, lemma_be64_round_trip, push_be16, push_be64,
    push_bytes, read_be16, read_be64,
};
use crate::primitives::{
    ed25519_accepts, ed25519_key_decodes, ed25519_key_valid, ed25519_verify, string_from_utf8,
};
use crate::protocol::{spec_encode_frame, TransportFrame};
use vstd::prelude::*;
use vstd::string::StringSliceAdditionalSpecFns;
use vstd::utf8::*;

verus! {

broadcast use {encode_utf8_valid_utf8, encode_utf8_decode_utf8, decode_utf8_encode_utf8};

/// The most endpoints that a directory may list.
pub const MAX_DIRECTORY_ENDPOINTS: usize = 32;

/// The longest URL, in UTF-8 bytes, that a directory may hold.
pub const MAX_URL_BYTES: usize = 2048;

/// How far, in seconds, a directory's issue time may lie ahead of the local clock.
pub const ISSUE_CLOCK_SKEW_SECONDS: u64 = 300;

#[derive(Clone, Debug, Eq, PartialEq)]
pub struct RelayEndpoint {
    pub endpoint_id: [u8; 16],
    pub websocket_url: String,
    pub https_url: String,
    pub priority: u16,
}

#[derive(Clone, Debug, Eq, PartialEq)]
pub struct SignedRelayDirectory {
    pub version: u64,
    pub issued_at: u64,
    pub expires_at: u64,
    pub endpoints: Vec<RelayEndpoint>,
    pub signature: [u8; 64],
}

#[derive(Clone, Copy, Debug, Eq, PartialEq, Structural)]
pub enum TransportError {
    InvalidDirectorySignature,
    ExpiredDirectory,
    DirectoryRollback,
    FrameTooLarge,
    Unavailable,
    InvalidResponse,
}

impl TransportError {
    /// The message that describes the error.
    pub fn message(&self) -> (r: &'static str)
        ensures
            r@ == (match *self {
                TransportError::InvalidDirectorySignature => "relay directory signature is invalid"@,
                TransportError::ExpiredDirectory => "relay directory is expired or not yet valid"@,
                TransportError::DirectoryRollback => "relay directory rollback was rejected"@,
                TransportError::FrameTooLarge => "frame exceeds the protocol limit"@,
                TransportError::Unavailable => "all relay transports failed; outbox retained"@,
                TransportError::InvalidResponse => "relay returned invalid data"@,
            }),
    {
        match self {
            TransportError::InvalidDirectorySignature => "relay directory signature is invalid",
            TransportError::ExpiredDirectory => "relay directory is expired or not yet valid",
            TransportError::DirectoryRollback => "relay directory rollback was rejected",
            TransportError::FrameTooLarge => "frame exceeds the protocol limit",
            TransportError::Unavailable => "all relay transports failed; outbox retained",
            TransportError::InvalidResponse => "relay returned invalid data",
        }
    }
}

#[derive(Clone, Copy, Debug, Default, Eq, PartialEq, Structural)]
pub struct ByteCounters {
    pub sent: u64,
    pub received: u64,
    pub attempts: u64,
    pub websocket_failures: u64,
    pub https_failures: u64,
    pub relay_switches: u64,
}

/// The mathematical value of a relay endpoint.
pub struct EndpointView {
    pub endpoint_id: Seq<u8>,
    pub websocket_url: Seq<char>,
    pub https_url: Seq<char>,
    pub priority: u16,
}

/// The mathematical value of a relay directory.
pub struct DirectoryView {
    pub version: u64,
    pub issued_at: u64,
    pub expires_at: u64,
    pub endpoints: Seq<EndpointView>,
    pub signature: Seq<u8>,
}

impl View for RelayEndpoint {
    type V = EndpointView;

    open spec fn view(&self) -> EndpointView {
        EndpointView {
            endpoint_id: self.endpoint_id@,
            websocket_url: self.websocket_url@,
            https_url: self.https_url@,
            priority: self.priority,
        }
    }
}

/// The views of a list of endpoints.
pub open spec fn endpoint_views(endpoints: Seq<RelayEndpoint>) -> Seq<EndpointView> {
    endpoints.map_values(|e: RelayEndpoint| e@)
}

impl View for SignedRelayDirectory {
    type V = DirectoryView;

    open spec fn view(&self) -> DirectoryView {
        DirectoryView {
            version: self.version,
            issued_at: self.issued_at,
            expires_at: self.expires_at,
            endpoints: endpoint_views(self.endpoints@),
            signature: self.signature@,
        }
    }
}

// ---------------------------------------------------------------------------
// Stable ordering of endpoints
// ---------------------------------------------------------------------------
/// Lexicographic order of byte strings, as Rust orders slices and arrays.
pub open spec fn lex_lt(a: Seq<u8>, b: Seq<u8>) -> bool {
    ||| exists|i: int|
        0 <= i < a.len() && i < b.len() && a[i] < b[i] && (forall|j: int|
            0 <= j < i ==> a[j] == b[j])
    ||| (a.len() < b.len() && forall|j: int| 0 <= j < a.len() ==> a[j] == b[j])
}

/// Inserting `e` into `order` behind every element that `e` does not go before, as one
/// step of a stable insertion sort does.
pub open spec fn insert_in_order(
    order: Seq<usize>,
    e: usize,
    before: spec_fn(usize, usize) -> bool,
) -> Seq<usize>
    decreases order.len(),
{
    if order.len() == 0 || !before(e, order.last()) {
        order.push(e)
    } else {
        insert_in_order(order.drop_last(), e, before).push(order.last())
    }
}

/// The indices `0..n` in stably sorted order: an index goes after every smaller index
/// that it does not go strictly before.
pub open spec fn stable_order(n: nat, before: spec_fn(usize, usize) -> bool) -> Seq<usize>
    decreases n,
{
    if n == 0 {
        Seq::empty()
    } else {
        insert_in_order(stable_order((n - 1) as nat, before), (n - 1) as usize, before)
    }
}

/// Inserting lands after the last element that `e` does not go before.
pub(crate) proof fn lemma_insert_at(s: Seq<usize>, e: usize, before: spec_fn(usize, usize) -> bool, j: int)
    requires
        0 <= j <= s.len(),
        forall|k: int| j <= k < s.len() ==> before(e, #[trigger] s[k]),
        j == 0 || !before(e, s[j - 1]),
    ensures
        insert_in_order(s, e, before) == s.take(j).push(e) + s.skip(j),
    decreases s.len(),
{
    if j == s.len() {
        assert(s.take(j) == s);
        assert(s.skip(j) =~= Seq::<usize>::empty());
        assert(s.take(j).push(e) + s.skip(j) =~= s.push(e));
    } else {
        assert(before(e, s[s.len() - 1]));
        lemma_insert_at(s.drop_last(), e, before, j);
        assert(s.drop_last().take(j) =~= s.take(j));
        assert(s.take(j).push(e) + s.skip(j) =~= (s.drop_last().take(j).push(e) + s.drop_last().skip(
            j,
        )).push(s.last()));
    }
}

/// The stable order of `0..n` lists each index below `n` once.
pub(crate) proof fn lemma_stable_order_shape(n: nat, before: spec_fn(usize, usize) -> bool)
    requires
        n <= usize::MAX,
    ensures
        stable_order(n, before).len() == n,
        forall|i: int| 0 <= i < n ==> #[trigger] stable_order(n, before)[i] < n,
    decreases n,
{
    if n > 0 {
        let m = (n - 1) as nat;
        lemma_stable_order_shape(m, before);
        lemma_insert_shape(stable_order(m, before), (n - 1) as usize, before);
    }
}

proof fn lemma_insert_shape(s: Seq<usize>, e: usize, before: spec_fn(usize, usize) -> bool)
    ensures
        insert_in_order(s, e, before).len() == s.len() + 1,
        forall|i: int|
            0 <= i < s.len() + 1 ==> #[trigger] insert_in_order(s, e, before)[i] == e
                || s.contains(insert_in_order(s, e, before)[i]),
    decreases s.len(),
{
    if s.len() > 0 && before(e, s.last()) {
        let t = s.drop_last();
        lemma_insert_shape(t, e, before);
        assert forall|i: int| 0 <= i < s.len() + 1 implies #[trigger] insert_in_order(
            s,
            e,
            before,
        )[i] == e || s.contains(insert_in_order(s, e, before)[i]) by {
            if i < s.len() {
                let x = insert_in_order(t, e, before)[i];
                if x != e {
                    let k = choose|k: int| 0 <= k < t.len() && t[k] == x;
                    assert(s[k] == x);
                }
            } else {
                assert(s[s.len() - 1] == s.last());
            }
        }
    } else {
        assert forall|i: int| 0 <= i < s.len() + 1 implies #[trigger] insert_in_order(
            s,
            e,
            before,
        )[i] == e || s.contains(insert_in_order(s, e, before)[i]) by {
            if i < s.len() {
                assert(s[i] == insert_in_order(s, e, before)[i]);
            }
        }
    }
}

/// No element goes strictly before the one ahead of it.
pub open spec fn adjacent_ordered(s: Seq<usize>, before: spec_fn(usize, usize) -> bool) -> bool {
    forall|i: int| 0 < i < s.len() ==> !before(#[trigger] s[i], s[i - 1])
}

/// Inserting into a list in which no element goes before the one ahead of it keeps it so,
/// for an order in which no two elements go before each other; the last element is then
/// the inserted one or the old last one.
proof fn lemma_insert_adjacent(s: Seq<usize>, e: usize, before: spec_fn(usize, usize) -> bool)
    requires
        adjacent_ordered(s, before),
        forall|x: usize, y: usize| #[trigger] before(x, y) ==> !before(y, x),
    ensures
        adjacent_ordered(insert_in_order(s, e, before), before),
        insert_in_order(s, e, before).len() == s.len() + 1,
        insert_in_order(s, e, before).last() == e || (s.len() > 0 && insert_in_order(s, e, before).last()
            == s.last()),
    decreases s.len(),
{
    let r = insert_in_order(s, e, before);
    if s.len() == 0 || !before(e, s.last()) {
        assert(r == s.push(e));
        assert forall|i: int| 0 < i < r.len() implies !before(#[trigger] r[i], r[i - 1]) by {
            if i < s.len() {
                assert(r[i] == s[i] && r[i - 1] == s[i - 1]);
            } else {
                assert(r[i] == e && r[i - 1] == s.last());
            }
        }
    } else {
        let t = s.drop_last();
        assert(adjacent_ordered(t, before)) by {
            assert forall|i: int| 0 < i < t.len() implies !before(#[trigger] t[i], t[i - 1]) by {
                assert(t[i] == s[i] && t[i - 1] == s[i - 1]);
            }
        }
        lemma_insert_adjacent(t, e, before);
        let u = insert_in_order(t, e, before);
        assert(r == u.push(s.last()));
        assert forall|i: int| 0 < i < r.len() implies !before(#[trigger] r[i], r[i - 1]) by {
            if i < u.len() {
                assert(r[i] == u[i] && r[i - 1] == u[i - 1]);
            } else {
                assert(r[i] == s.last() && r[i - 1] == u.last());
                if u.last() != e {
                    assert(u.last() == t.last());
                    assert(t.last() == s[s.len() - 2]);
                    assert(s[s.len() - 1] == s.last());
                }
            }
        }
    }
}

/// The stable order lists no index before one that it goes strictly before, for an order
/// in which no two elements go before each other.
pub(crate) proof fn lemma_stable_order_adjacent(n: nat, before: spec_fn(usize, usize) -> bool)
    requires
        forall|x: usize, y: usize| #[trigger] before(x, y) ==> !before(y, x),
    ensures
        adjacent_ordered(stable_order(n, before), before),
    decreases n,
{
    if n > 0 {
        lemma_stable_order_adjacent((n - 1) as nat, before);
        lemma_insert_adjacent(stable_order((n - 1) as nat, before), (n - 1) as usize, before);
    }
}

/// Indices ordered by a key: the key never falls, and where it ties the index rises.
pub open spec fn keyed_ascending(s: Seq<usize>, key: spec_fn(usize) -> int) -> bool {
    forall|p: int, q: int|
        0 <= p < q < s.len() ==> key(#[trigger] s[p]) < key(#[trigger] s[q]) || (key(s[p]) == key(s[q])
            && s[p] < s[q])
}

/// Where `before` compares keys, the stable order ascends by key, ties in index order.
pub(crate) proof fn lemma_stable_order_keyed(n: nat, before: spec_fn(usize, usize) -> bool, key: spec_fn(usize) -> int)
    requires
        n <= usize::MAX,
        forall|i: usize, j: usize| #[trigger] before(i, j) == (key(i) < key(j)),
    ensures
        keyed_ascending(stable_order(n, before), key),
    decreases n,
{
    if n > 0 {
        let m = (n - 1) as nat;
        lemma_stable_order_keyed(m, before, key);
        lemma_stable_order_shape(m, before);
        lemma_insert_keyed(stable_order(m, before), (n - 1) as usize, before, key);
    }
}

proof fn lemma_insert_keyed(s: Seq<usize>, e: usize, before: spec_fn(usize, usize) -> bool, key: spec_fn(usize) -> int)
    requires
        keyed_ascending(s, key),
        forall|k: int| 0 <= k < s.len() ==> #[trigger] s[k] < e,
        forall|i: usize, j: usize| #[trigger] before(i, j) == (key(i) < key(j)),
    ensures
        keyed_ascending(insert_in_order(s, e, before), key),
    decreases s.len(),
{
    let r = insert_in_order(s, e, before);
    if s.len() == 0 || !before(e, s.last()) {
        assert(r == s.push(e));
        assert forall|p: int, q: int| 0 <= p < q < r.len() implies key(#[trigger] r[p]) < key(#[trigger] r[q])
            || (key(r[p]) == key(r[q]) && r[p] < r[q]) by {
            assert(r[p] == s[p]);
            if q < s.len() {
                assert(r[q] == s[q]);
            } else {
                assert(r[q] == e);
                if p < s.len() - 1 {
                    assert(key(s[p]) < key(s[s.len() - 1]) || key(s[p]) == key(s[s.len() - 1]));
                }
            }
        }
    } else {
        let t = s.drop_last();
        assert(keyed_ascending(t, key)) by {
            assert forall|p: int, q: int| 0 <= p < q < t.len() implies key(#[trigger] t[p]) < key(
                #[trigger] t[q],
            ) || (key(t[p]) == key(t[q]) && t[p] < t[q]) by {
                assert(t[p] == s[p] && t[q] == s[q]);
            }
        }
        assert forall|k: int| 0 <= k < t.len() implies #[trigger] t[k] < e by {
            assert(t[k] == s[k]);
        }
        lemma_insert_keyed(t, e, before, key);
        lemma_insert_shape(t, e, before);
        let u = insert_in_order(t, e, before);
        assert(r == u.push(s.last()));
        assert forall|p: int, q: int| 0 <= p < q < r.len() implies key(#[trigger] r[p]) < key(#[trigger] r[q])
            || (key(r[p]) == key(r[q]) && r[p] < r[q]) by {
            assert(r[p] == u[p]);
            if q < u.len() {
                assert(r[q] == u[q]);
            } else {
                assert(r[q] == s.last());
                let x = u[p];
                assert(x == e || t.contains(x));
                if x != e {
                    let k = choose|k: int| 0 <= k < t.len() && t[k] == x;
                    assert(s[k] == x);
                    assert(s[s.len() - 1] == s.last());
                }
            }
        }
    }
}

/// Where no index goes strictly before the one ahead of it, the stable order is `0..n`.
proof fn lemma_stable_order_identity(n: nat, before: spec_fn(usize, usize) -> bool)
    requires
        n <= usize::MAX,
        forall|i: usize, j: usize| 0 < i < n && j + 1 == i ==> !#[trigger] before(i, j),
    ensures
        stable_order(n, before) == Seq::new(n, |i: int| i as usize),
    decreases n,
{
    if n > 0 {
        let m = (n - 1) as nat;
        lemma_stable_order_identity(m, before);
        let s = stable_order(m, before);
        if m > 0 {
            assert(s.last() == (m - 1) as usize);
            assert(!before((n - 1) as usize, ((n - 1) as usize - 1) as usize));
        }
        assert(stable_order(n, before) =~= Seq::new(n, |i: int| i as usize));
    }
}

/// The order in which a directory signs its endpoints: by priority, then by ID.
pub open spec fn endpoint_before(a: EndpointView, b: EndpointView) -> bool {
    a.priority < b.priority || (a.priority == b.priority && lex_lt(a.endpoint_id, b.endpoint_id))
}

/// Index `i` goes before index `j` in signing order.
pub open spec fn signing_before(endpoints: Seq<EndpointView>) -> spec_fn(usize, usize) -> bool {
    |i: usize, j: usize| endpoint_before(endpoints[i as int], endpoints[j as int])
}

/// The endpoints in signing order (a stable sort by priority and ID).
pub open spec fn signing_endpoints(endpoints: Seq<EndpointView>) -> Seq<EndpointView> {
    stable_order(endpoints.len(), signing_before(endpoints)).map_values(
        |i: usize| endpoints[i as int],
    )
}

/// No endpoint goes strictly before the one ahead of it in signing order.
pub open spec fn in_signing_order(endpoints: Seq<EndpointView>) -> bool {
    forall|i: int| 0 < i < endpoints.len() ==> !endpoint_before(#[trigger] endpoints[i], endpoints[i - 1])
}

/// Whether `a < b` for two 16-byte IDs.
fn id_less(a: &[u8; 16], b: &[u8; 16]) -> (r: bool)
    ensures
        r == lex_lt(a@, b@),
{
    let mut i: usize = 0;
    while i < 16
        invariant
            0 <= i <= 16,
            a@.len() == 16,
            b@.len() == 16,
            forall|j: int| 0 <= j < i ==> a@[j] == b@[j],
        decreases 16 - i,
    {
        if a[i] != b[i] {
            let r = a[i] < b[i];
            proof {
                if !r {
                    assert forall|k: int|
                        0 <= k < 16 && a@[k] < b@[k] implies !(forall|j: int|
                        0 <= j < k ==> a@[j] == b@[j]) by {
                        if k < i {
                        } else if k > i {
                            assert(a@[i as int] != b@[i as int]);
                        }
                    }
                }
            }
            return r;
        }
        i = i + 1;
    }
    assert(a@ =~= b@);
    false
}

fn endpoint_goes_before(a: &RelayEndpoint, b: &RelayEndpoint) -> (r: bool)
    ensures
        r == endpoint_before(a@, b@),
{
    a.priority < b.priority || (a.priority == b.priority && id_less(
        &a.endpoint_id,
        &b.endpoint_id,
    ))
}

/// The indices of `endpoints` in signing order.
fn signing_order(endpoints: &Vec<RelayEndpoint>) -> (order: Vec<usize>)
    ensures
        order@ == stable_order(endpoints@.len(), signing_before(endpoint_views(endpoints@))),
        order@.len() == endpoints@.len(),
        forall|i: int| 0 <= i < order@.len() ==> #[trigger] order@[i] < endpoints@.len(),
{
    let ghost views = endpoint_views(endpoints@);
    let ghost before = signing_before(views);
    let n = endpoints.len();
    let mut order: Vec<usize> = Vec::new();
    let mut k: usize = 0;
    while k < n
        invariant
            n == endpoints@.len(),
            views == endpoint_views(endpoints@),
            before == signing_before(views),
            0 <= k <= n,
            order@ == stable_order(k as nat, before),
            order@.len() == k,
            forall|i: int| 0 <= i < k ==> #[trigger] order@[i] < k,
        decreases n - k,
    {
        let mut j: usize = order.len();
        while j > 0 && endpoint_goes_before(&endpoints[k], &endpoints[order[j - 1]])
            invariant
                n == endpoints@.len(),
                views == endpoint_views(endpoints@),
                before == signing_before(views),
                k < n,
                order@.len() == k,
                forall|i: int| 0 <= i < k ==> #[trigger] order@[i] < k,
                0 <= j <= k,
                forall|m: int| j <= m < k ==> before(k, #[trigger] order@[m]),
            decreases j,
        {
            j = j - 1;
        }
        proof {
            lemma_insert_at(order@, k, before, j as int);
            lemma_stable_order_shape((k + 1) as nat, before);
        }
        order.insert(j, k);
        assert(order@ =~= stable_order(k as nat, before).take(j as int).push(k) + stable_order(
            k as nat,
            before,
        ).skip(j as int));
        k = k + 1;
    }
    order
}

// ---------------------------------------------------------------------------
// The signed layout
// ---------------------------------------------------------------------------
/// The ASCII bytes of "resilient/relay-directory/v1", which open every directory.
pub open spec fn directory_magic() -> Seq<u8> {
    seq![
        114u8, 101, 115, 105, 108, 105, 101, 110, 116, 47, 114, 101, 108, 97, 121, 45, 100, 105,
        114, 101, 99, 116, 111, 114, 121, 47, 118, 49,
    ]
}

fn directory_magic_bytes() -> (r: [u8; 28])
    ensures
        r@ == directory_magic(),
{
    let r: [u8; 28] = [
        114u8, 101, 115, 105, 108, 105, 101, 110, 116, 47, 114, 101, 108, 97, 121, 45, 100, 105,
        114, 101, 99, 116, 111, 114, 121, 47, 118, 49,
    ];
    assert(r@ =~= directory_magic());
    r
}

/// A URL as the directory lays it out: its UTF-8 length in two bytes, then its bytes.
pub open spec fn url_field(url: Seq<char>) -> Seq<u8> {
    be16(encode_utf8(url).len() as u16) + encode_utf8(url)
}

/// One endpoint as the directory lays it out.
pub open spec fn endpoint_field(e: EndpointView) -> Seq<u8> {
    e.endpoint_id + be16(e.priority) + url_field(e.websocket_url) + url_field(e.https_url)
}

/// A list of endpoints as the directory lays them out, one after the other.
pub open spec fn endpoint_fields(endpoints: Seq<EndpointView>) -> Seq<u8>
    decreases endpoints.len(),
{
    if endpoints.len() == 0 {
        Seq::empty()
    } else {
        endpoint_fields(endpoints.drop_last()) + endpoint_field(endpoints.last())
    }
}

/// A URL short enough for the directory.
pub open spec fn url_fits(url: Seq<char>) -> bool {
    encode_utf8(url).len() <= MAX_URL_BYTES
}

/// A directory that can be laid out for signing: at most 32 endpoints, every URL at
/// most 2048 bytes.
pub open spec fn directory_signable(d: DirectoryView) -> bool {
    &&& d.endpoints.len() <= MAX_DIRECTORY_ENDPOINTS
    &&& forall|i: int| 0 <= i < d.endpoints.len() ==> endpoint_fits(#[trigger] d.endpoints[i])
}

/// Both URLs of an endpoint fit the directory.
pub open spec fn endpoint_fits(e: EndpointView) -> bool {
    url_fits(e.websocket_url) && url_fits(e.https_url)
}

/// The bytes that the directory key signs: the magic, version, issue and expiry times,
/// the endpoint count and the endpoints in signing order.
pub open spec fn directory_signing_bytes(d: DirectoryView) -> Seq<u8> {
    directory_magic() + be64(d.version) + be64(d.issued_at) + be64(d.expires_at) + be16(
        d.endpoints.len() as u16,
    ) + endpoint_fields(signing_endpoints(d.endpoints))
}

/// What `signing_bytes` gives.
pub open spec fn spec_signing_bytes(d: DirectoryView) -> Result<Seq<u8>, TransportError> {
    if directory_signable(d) {
        Ok(directory_signing_bytes(d))
    } else {
        Err(TransportError::InvalidResponse)
    }
}

/// What `encode` gives: the signed bytes followed by the signature.
pub open spec fn spec_encode_directory(d: DirectoryView) -> Result<Seq<u8>, TransportError> {
    match spec_signing_bytes(d) {
        Ok(b) => Ok(b + d.signature),
        Err(e) => Err(e),
    }
}

/// Appends a URL field.
fn put_string(out: &mut Vec<u8>, value: &String) -> (r: Result<(), TransportError>)
    ensures
        r is Ok <==> url_fits(value@),
        r is Ok ==> final(out)@ == old(out)@ + url_field(value@),
        r is Err ==> r == Err::<(), TransportError>(TransportError::InvalidResponse),
        r is Err ==> final(out)@ == old(out)@,
{
    let bytes = value.as_str().as_bytes();
    if bytes.len() > MAX_URL_BYTES {
        return Err(TransportError::InvalidResponse);
    }
    push_be16(out, bytes.len() as u16);
    push_bytes(out, bytes);
    assert(out@ =~= old(out)@ + url_field(value@));
    Ok(())
}

impl SignedRelayDirectory {
    /// The bytes that the directory key signs.
    pub fn signing_bytes(&self) -> (r: Result<Vec<u8>, TransportError>)
        ensures
            match spec_signing_bytes(self@) {
                Ok(b) => r matches Ok(v) && v@ == b,
                Err(e) => r == Err::<Vec<u8>, TransportError>(e),
            },
    {
        let ghost d = self@;
        let n = self.endpoints.len();
        if n > MAX_DIRECTORY_ENDPOINTS {
            return Err(TransportError::InvalidResponse);
        }
        let mut i: usize = 0;
        while i < n
            invariant
                n == self.endpoints@.len(),
                d == self@,
                0 <= i <= n,
                forall|k: int| 0 <= k < i ==> endpoint_fits(#[trigger] d.endpoints[k]),
            decreases n - i,
        {
            let e = &self.endpoints[i];
            assert(d.endpoints[i as int] == e@);
            let ws = e.websocket_url.as_str().as_bytes();
            let https = e.https_url.as_str().as_bytes();
            if ws.len() > MAX_URL_BYTES || https.len() > MAX_URL_BYTES {
                assert(!endpoint_fits(d.endpoints[i as int]));
                return Err(TransportError::InvalidResponse);
            }
            assert(endpoint_fits(d.endpoints[i as int]));
            i = i + 1;
        }
        let order = signing_order(&self.endpoints);
        let ghost sorted = signing_endpoints(d.endpoints);
        let mut out: Vec<u8> = Vec::new();
        push_bytes(&mut out, &directory_magic_bytes());
        push_be64(&mut out, self.version);
        push_be64(&mut out, self.issued_at);
        push_be64(&mut out, self.expires_at);
        push_be16(&mut out, n as u16);
        let ghost head = out@;
        assert(head =~= directory_magic() + be64(d.version) + be64(d.issued_at) + be64(
            d.expires_at,
        ) + be16(d.endpoints.len() as u16));
        let mut p: usize = 0;
        while p < n
            invariant
                n == self.endpoints@.len(),
                d == self@,
                directory_signable(d),
                order@ == stable_order(n as nat, signing_before(d.endpoints)),
                order@.len() == n,
                forall|k: int| 0 <= k < n ==> #[trigger] order@[k] < n,
                sorted == signing_endpoints(d.endpoints),
                0 <= p <= n,
                out@ == head + endpoint_fields(sorted.take(p as int)),
            decreases n - p,
        {
            let e = &self.endpoints[order[p]];
            assert(sorted[p as int] == e@);
            assert(endpoint_fits(d.endpoints[order@[p as int] as int]));
            push_bytes(&mut out, &e.endpoint_id);
            push_be16(&mut out, e.priority);
            let r1 = put_string(&mut out, &e.websocket_url);
            let r2 = put_string(&mut out, &e.https_url);
            assert(sorted.take(p + 1).drop_last() =~= sorted.take(p as int));
            assert(out@ =~= head + endpoint_fields(sorted.take(p + 1)));
            p = p + 1;
        }
        assert(sorted.take(n as int) =~= sorted);
        Ok(out)
    }

    /// The signed bytes followed by the signature.
    pub fn encode(&self) -> (r: Result<Vec<u8>, TransportError>)
        ensures
            match spec_encode_directory(self@) {
                Ok(b) => r matches Ok(v) && v@ == b,
                Err(e) => r == Err::<Vec<u8>, TransportError>(e),
            },
    {
        let mut value = self.signing_bytes()?;
        push_bytes(&mut value, &self.signature);
        Ok(value)
    }
}


// ---------------------------------------------------------------------------
// Reading a directory
// ---------------------------------------------------------------------------
/// `b` starts with `p`.
pub open spec fn has_prefix(b: Seq<u8>, p: Seq<u8>) -> bool {
    p.len() <= b.len() && b.take(p.len() as int) == p
}

/// The ASCII bytes of "wss://".
pub open spec fn wss_scheme() -> Seq<u8> {
    seq![119u8, 115, 115, 58, 47, 47]
}

/// The ASCII bytes of "ws://".
pub open spec fn ws_scheme() -> Seq<u8> {
    seq![119u8, 115, 58, 47, 47]
}

/// The ASCII bytes of "https://".
pub open spec fn https_scheme() -> Seq<u8> {
    seq![104u8, 116, 116, 112, 115, 58, 47, 47]
}

/// The ASCII bytes of "http://".
pub open spec fn http_scheme() -> Seq<u8> {
    seq![104u8, 116, 116, 112, 58, 47, 47]
}

/// A WebSocket URL starts with "wss://" or "ws://".
pub open spec fn websocket_scheme_ok(url: Seq<u8>) -> bool {
    has_prefix(url, wss_scheme()) || has_prefix(url, ws_scheme())
}

/// An HTTPS URL starts with "https://" or "http://".
pub open spec fn https_scheme_ok(url: Seq<u8>) -> bool {
    has_prefix(url, https_scheme()) || has_prefix(url, http_scheme())
}

/// Reading a URL field at `p`: its UTF-8 bytes and the position after it.
pub open spec fn parse_url(s: Seq<u8>, p: int) -> Option<(Seq<u8>, int)> {
    if p < 0 || p + 2 > s.len() {
        None
    } else {
        let n = be16_value(s.subrange(p, p + 2)) as int;
        if n > MAX_URL_BYTES || p + 2 + n > s.len() {
            None
        } else if !valid_utf8(s.subrange(p + 2, p + 2 + n)) {
            None
        } else {
            Some((s.subrange(p + 2, p + 2 + n), p + 2 + n))
        }
    }
}

/// Reading one endpoint at `p`: the endpoint and the position after it.
pub open spec fn parse_endpoint(s: Seq<u8>, p: int) -> Option<(EndpointView, int)> {
    if p < 0 || p + 18 > s.len() {
        None
    } else {
        match parse_url(s, p + 18) {
            None => None,
            Some((ws, q)) => match parse_url(s, q) {
                None => None,
                Some((https, r)) => if websocket_scheme_ok(ws) && https_scheme_ok(https) {
                    Some(
                        (
                            EndpointView {
                                endpoint_id: s.subrange(p, p + 16),
                                websocket_url: decode_utf8(ws),
                                https_url: decode_utf8(https),
                                priority: be16_value(s.subrange(p + 16, p + 18)),
                            },
                            r,
                        ),
                    )
                } else {
                    None
                },
            },
        }
    }
}

/// Reading `count` endpoints one after the other from `p`.
pub open spec fn parse_endpoints(s: Seq<u8>, p: int, count: nat) -> Option<(Seq<EndpointView>, int)>
    decreases count,
{
    if count == 0 {
        Some((Seq::empty(), p))
    } else {
        match parse_endpoints(s, p, (count - 1) as nat) {
            None => None,
            Some((eps, q)) => match parse_endpoint(s, q) {
                None => None,
                Some((e, r)) => Some((eps.push(e), r)),
            },
        }
    }
}

/// Where the endpoints start: after the magic, three 8-byte times and the count.
pub open spec fn endpoints_start() -> int {
    directory_magic().len() as int + 26
}

/// What `decode` gives: the directory that `s` lays out exactly, or `InvalidResponse`.
pub open spec fn spec_decode_directory(s: Seq<u8>) -> Result<DirectoryView, TransportError> {
    let m = directory_magic().len() as int;
    if s.len() < endpoints_start() || s.subrange(0, m) != directory_magic() {
        Err(TransportError::InvalidResponse)
    } else {
        let count = be16_value(s.subrange(m + 24, m + 26)) as nat;
        if count > MAX_DIRECTORY_ENDPOINTS {
            Err(TransportError::InvalidResponse)
        } else {
            match parse_endpoints(s, endpoints_start(), count) {
                None => Err(TransportError::InvalidResponse),
                Some((eps, q)) => if q + 64 != s.len() {
                    Err(TransportError::InvalidResponse)
                } else {
                    Ok(
                        DirectoryView {
                            version: be64_value(s.subrange(m, m + 8)),
                            issued_at: be64_value(s.subrange(m + 8, m + 16)),
                            expires_at: be64_value(s.subrange(m + 16, m + 24)),
                            endpoints: eps,
                            signature: s.subrange(q, q + 64),
                        },
                    )
                },
            }
        }
    }
}

/// Whether `b` starts with `p`.
fn starts_with(b: &[u8], p: &[u8]) -> (r: bool)
    ensures
        r == has_prefix(b@, p@),
{
    if p.len() > b.len() {
        return false;
    }
    let mut i: usize = 0;
    while i < p.len()
        invariant
            0 <= i <= p@.len(),
            p@.len() <= b@.len(),
            forall|j: int| 0 <= j < i ==> b@[j] == p@[j],
        decreases p@.len() - i,
    {
        if b[i] != p[i] {
            return false;
        }
        i = i + 1;
    }
    assert(b@.take(p@.len() as int) =~= p@);
    true
}

fn websocket_scheme_accepted(url: &String) -> (r: bool)
    ensures
        r == websocket_scheme_ok(encode_utf8(url@)),
{
    let b = url.as_str().as_bytes();
    let wss: [u8; 6] = [119u8, 115, 115, 58, 47, 47];
    let ws: [u8; 5] = [119u8, 115, 58, 47, 47];
    assert(wss@ =~= wss_scheme());
    assert(ws@ =~= ws_scheme());
    starts_with(b, &wss) || starts_with(b, &ws)
}

fn https_scheme_accepted(url: &String) -> (r: bool)
    ensures
        r == https_scheme_ok(encode_utf8(url@)),
{
    let b = url.as_str().as_bytes();
    let https: [u8; 8] = [104u8, 116, 116, 112, 115, 58, 47, 47];
    let http: [u8; 7] = [104u8, 116, 116, 112, 58, 47, 47];
    assert(https@ =~= https_scheme());
    assert(http@ =~= http_scheme());
    starts_with(b, &https) || starts_with(b, &http)
}

/// Once reading endpoints fails, reading more of them fails too.
proof fn lemma_parse_endpoints_stops(s: Seq<u8>, p: int, a: nat, b: nat)
    requires
        a <= b,
        parse_endpoints(s, p, a) is None,
    ensures
        parse_endpoints(s, p, b) is None,
    decreases b - a,
{
    if a < b {
        lemma_parse_endpoints_stops(s, p, a, (b - 1) as nat);
    }
}

struct DirectoryReader<'a> {
    bytes: &'a [u8],
    position: usize,
}

impl<'a> DirectoryReader<'a> {
    fn new(bytes: &'a [u8]) -> (r: DirectoryReader<'a>)
        ensures
            r.bytes@ == bytes@,
            r.position == 0,
    {
        DirectoryReader { bytes, position: 0 }
    }

    fn take(&mut self, count: usize) -> (r: Result<&'a [u8], TransportError>)
        requires
            old(self).position <= old(self).bytes@.len(),
        ensures
            final(self).bytes@ == old(self).bytes@,
            final(self).position <= final(self).bytes@.len(),
            old(self).position + count <= old(self).bytes@.len() ==> (r matches Ok(t) && t@
                == old(self).bytes@.subrange(
                old(self).position as int,
                old(self).position + count,
            ) && final(self).position == old(self).position + count),
            old(self).position + count > old(self).bytes@.len() ==> r == Err::<
                &'a [u8],
                TransportError,
            >(TransportError::InvalidResponse),
    {
        if count > self.bytes.len() - self.position {
            return Err(TransportError::InvalidResponse);
        }
        let end = self.position + count;
        let value = vstd::slice::slice_subrange(self.bytes, self.position, end);
        self.position = end;
        Ok(value)
    }

    fn array16(&mut self) -> (r: Result<[u8; 16], TransportError>)
        requires
            old(self).position <= old(self).bytes@.len(),
        ensures
            final(self).bytes@ == old(self).bytes@,
            final(self).position <= final(self).bytes@.len(),
            old(self).position + 16 <= old(self).bytes@.len() ==> (r matches Ok(t) && t@
                == old(self).bytes@.subrange(old(self).position as int, old(self).position + 16)
                && final(self).position == old(self).position + 16),
            old(self).position + 16 > old(self).bytes@.len() ==> r is Err,
            r matches Err(e) ==> e == TransportError::InvalidResponse,
    {
        let t = self.take(16)?;
        Ok(array16_at(t, 0))
    }

    fn array64(&mut self) -> (r: Result<[u8; 64], TransportError>)
        requires
            old(self).position <= old(self).bytes@.len(),
        ensures
            final(self).bytes@ == old(self).bytes@,
            final(self).position <= final(self).bytes@.len(),
            old(self).position + 64 <= old(self).bytes@.len() ==> (r matches Ok(t) && t@
                == old(self).bytes@.subrange(old(self).position as int, old(self).position + 64)
                && final(self).position == old(self).position + 64),
            old(self).position + 64 > old(self).bytes@.len() ==> r is Err,
            r matches Err(e) ==> e == TransportError::InvalidResponse,
    {
        let t = self.take(64)?;
        Ok(array64_at(t, 0))
    }

    fn u16(&mut self) -> (r: Result<u16, TransportError>)
        requires
            old(self).position <= old(self).bytes@.len(),
        ensures
            final(self).bytes@ == old(self).bytes@,
            final(self).position <= final(self).bytes@.len(),
            old(self).position + 2 <= old(self).bytes@.len() ==> (r matches Ok(v) && v
                == be16_value(
                old(self).bytes@.subrange(old(self).position as int, old(self).position + 2),
            ) && final(self).position == old(self).position + 2),
            old(self).position + 2 > old(self).bytes@.len() ==> r is Err,
            r matches Err(e) ==> e == TransportError::InvalidResponse,
    {
        let t = self.take(2)?;
        Ok(read_be16(t, 0))
    }

    fn u64(&mut self) -> (r: Result<u64, TransportError>)
        requires
            old(self).position <= old(self).bytes@.len(),
        ensures
            final(self).bytes@ == old(self).bytes@,
            final(self).position <= final(self).bytes@.len(),
            old(self).position + 8 <= old(self).bytes@.len() ==> (r matches Ok(v) && v
                == be64_value(
                old(self).bytes@.subrange(old(self).position as int, old(self).position + 8),
            ) && final(self).position == old(self).position + 8),
            old(self).position + 8 > old(self).bytes@.len() ==> r is Err,
            r matches Err(e) ==> e == TransportError::InvalidResponse,
    {
        let t = self.take(8)?;
        Ok(read_be64(t, 0))
    }

    fn string(&mut self) -> (r: Result<String, TransportError>)
        requires
            old(self).position <= old(self).bytes@.len(),
        ensures
            final(self).bytes@ == old(self).bytes@,
            final(self).position <= final(self).bytes@.len(),
            match parse_url(old(self).bytes@, old(self).position as int) {
                Some((raw, q)) => r matches Ok(v) && v@ == decode_utf8(raw) && encode_utf8(v@)
                    == raw && final(self).position == q,
                None => r is Err,
            },
            r matches Err(e) ==> e == TransportError::InvalidResponse,
    {
        let length = self.u16()?;
        if length as usize > MAX_URL_BYTES {
            return Err(TransportError::InvalidResponse);
        }
        let raw = self.take(length as usize)?;
        match string_from_utf8(raw) {
            Some(value) => Ok(value),
            None => Err(TransportError::InvalidResponse),
        }
    }

    fn finish(&self) -> (r: Result<(), TransportError>)
        ensures
            r is Ok <==> self.position == self.bytes@.len(),
            r is Err ==> r == Err::<(), TransportError>(TransportError::InvalidResponse),
    {
        if self.position == self.bytes.len() {
            Ok(())
        } else {
            Err(TransportError::InvalidResponse)
        }
    }
}

impl SignedRelayDirectory {
    /// Reads a directory laid out exactly as `encode` writes one.
    pub fn decode(value: &[u8]) -> (r: Result<SignedRelayDirectory, TransportError>)
        ensures
            match spec_decode_directory(value@) {
                Ok(d) => r matches Ok(x) && x@ == d,
                Err(e) => r == Err::<SignedRelayDirectory, TransportError>(e),
            },
    {
        let ghost s = value@;
        let mut reader = DirectoryReader::new(value);
        let magic = directory_magic_bytes();
        let head = reader.take(28)?;
        if !crate::bytes::bytes_equal(head, &magic) {
            return Err(TransportError::InvalidResponse);
        }
        let version = reader.u64()?;
        let issued_at = reader.u64()?;
        let expires_at = reader.u64()?;
        let count = reader.u16()? as usize;
        assert(directory_magic().len() == 28);
        assert(s.subrange(0, 28) == directory_magic());
        assert(count == be16_value(s.subrange(52, 54)));
        assert(s.len() >= endpoints_start());
        if count > MAX_DIRECTORY_ENDPOINTS {
            return Err(TransportError::InvalidResponse);
        }
        let mut endpoints: Vec<RelayEndpoint> = Vec::new();
        let mut k: usize = 0;
        while k < count
            invariant
                reader.bytes@ == s,
                s == value@,
                reader.position <= s.len(),
                s.len() >= endpoints_start(),
                directory_magic().len() == 28,
                s.subrange(0, 28) == directory_magic(),
                count == be16_value(s.subrange(52, 54)),
                0 <= k <= count,
                count <= MAX_DIRECTORY_ENDPOINTS,
                parse_endpoints(s, endpoints_start(), k as nat) == Some(
                    (endpoint_views(endpoints@), reader.position as int),
                ),
            decreases count - k,
        {
            let ghost start = reader.position as int;
            let endpoint_id = match reader.array16() {
                Ok(v) => v,
                Err(e) => {
                    assert(parse_endpoint(s, start) is None);
                    proof {
                        lemma_parse_endpoints_stops(s, endpoints_start(), (k + 1) as nat, count as nat);
                    }
                    return Err(e);
                },
            };
            let priority = match reader.u16() {
                Ok(v) => v,
                Err(e) => {
                    assert(parse_endpoint(s, start) is None);
                    proof {
                        lemma_parse_endpoints_stops(s, endpoints_start(), (k + 1) as nat, count as nat);
                    }
                    return Err(e);
                },
            };
            let websocket_url = match reader.string() {
                Ok(v) => v,
                Err(e) => {
                    assert(parse_endpoint(s, start) is None);
                    proof {
                        lemma_parse_endpoints_stops(s, endpoints_start(), (k + 1) as nat, count as nat);
                    }
                    return Err(e);
                },
            };
            let https_url = match reader.string() {
                Ok(v) => v,
                Err(e) => {
                    assert(parse_endpoint(s, start) is None);
                    proof {
                        lemma_parse_endpoints_stops(s, endpoints_start(), (k + 1) as nat, count as nat);
                    }
                    return Err(e);
                },
            };
            if !websocket_scheme_accepted(&websocket_url) || !https_scheme_accepted(&https_url) {
                assert(parse_endpoint(s, start) is None);
                proof {
                        lemma_parse_endpoints_stops(s, endpoints_start(), (k + 1) as nat, count as nat);
                    }
                return Err(TransportError::InvalidResponse);
            }
            let endpoint = RelayEndpoint { endpoint_id, websocket_url, https_url, priority };
            let ghost before = endpoints@;
            endpoints.push(endpoint);
            assert(endpoint_views(endpoints@) =~= endpoint_views(before).push(endpoint@));
            k = k + 1;
        }
        let signature = match reader.array64() {
            Ok(v) => v,
            Err(e) => {
                return Err(e);
            },
        };
        reader.finish()?;
        let d = SignedRelayDirectory { version, issued_at, expires_at, endpoints, signature };
        assert(d@.endpoints == endpoint_views(d.endpoints@));
        Ok(d)
    }
}


// ---------------------------------------------------------------------------
// Laws of the directory layout
// ---------------------------------------------------------------------------
/// An endpoint's URLs carry the schemes that `decode` accepts.
pub open spec fn endpoint_schemes_ok(e: EndpointView) -> bool {
    websocket_scheme_ok(encode_utf8(e.websocket_url)) && https_scheme_ok(encode_utf8(e.https_url))
}

/// The shape that every directory value has: 16-byte endpoint IDs and a 64-byte signature.
pub open spec fn directory_well_formed(d: DirectoryView) -> bool {
    &&& d.signature.len() == 64
    &&& forall|i: int| 0 <= i < d.endpoints.len() ==> (#[trigger] d.endpoints[i]).endpoint_id.len() == 16
}

proof fn lemma_parse_url_field(pre: Seq<u8>, url: Seq<char>, post: Seq<u8>)
    requires
        url_fits(url),
    ensures
        parse_url(pre + url_field(url) + post, pre.len() as int) == Some(
            (encode_utf8(url), (pre.len() + url_field(url).len()) as int),
        ),
{
    let s = pre + url_field(url) + post;
    let b = encode_utf8(url);
    let p = pre.len() as int;
    lemma_be16_round_trip(b.len() as u16);
    assert(s.subrange(p, p + 2) =~= be16(b.len() as u16));
    assert(s.subrange(p + 2, p + 2 + b.len()) =~= b);
}

proof fn lemma_parse_endpoint_field(pre: Seq<u8>, e: EndpointView, post: Seq<u8>)
    requires
        e.endpoint_id.len() == 16,
        endpoint_fits(e),
        endpoint_schemes_ok(e),
    ensures
        parse_endpoint(pre + endpoint_field(e) + post, pre.len() as int) == Some(
            (e, (pre.len() + endpoint_field(e).len()) as int),
        ),
{
    let s = pre + endpoint_field(e) + post;
    let p = pre.len() as int;
    let pre1 = pre + e.endpoint_id + be16(e.priority);
    let post1 = url_field(e.https_url) + post;
    assert(s =~= pre1 + url_field(e.websocket_url) + post1);
    lemma_parse_url_field(pre1, e.websocket_url, post1);
    let pre2 = pre1 + url_field(e.websocket_url);
    assert(s =~= pre2 + url_field(e.https_url) + post);
    lemma_parse_url_field(pre2, e.https_url, post);
    assert(s.subrange(p, p + 16) =~= e.endpoint_id);
    assert(s.subrange(p + 16, p + 18) =~= be16(e.priority));
    lemma_be16_round_trip(e.priority);
}

proof fn lemma_parse_endpoint_fields(pre: Seq<u8>, eps: Seq<EndpointView>, post: Seq<u8>)
    requires
        forall|i: int|
            0 <= i < eps.len() ==> (#[trigger] eps[i]).endpoint_id.len() == 16 && endpoint_fits(
                eps[i],
            ) && endpoint_schemes_ok(eps[i]),
    ensures
        parse_endpoints(pre + endpoint_fields(eps) + post, pre.len() as int, eps.len()) == Some(
            (eps, (pre.len() + endpoint_fields(eps).len()) as int),
        ),
    decreases eps.len(),
{
    if eps.len() > 0 {
        let init = eps.drop_last();
        let last = eps.last();
        assert(eps[eps.len() - 1] == last);
        let fi = endpoint_fields(init);
        let fl = endpoint_field(last);
        assert(endpoint_fields(eps) == fi + fl);
        vstd::seq_lib::lemma_concat_associative(pre, fi, fl);
        let pre2 = pre + fi;
        vstd::seq_lib::lemma_concat_associative(pre2, fl, post);
        assert forall|i: int| 0 <= i < init.len() implies (#[trigger] init[i]).endpoint_id.len() == 16
            && endpoint_fits(init[i]) && endpoint_schemes_ok(init[i]) by {
            assert(init[i] == eps[i]);
        }
        lemma_parse_endpoint_fields(pre, init, fl + post);
        lemma_parse_endpoint_field(pre2, last, post);
        assert(init.push(last) =~= eps);
    } else {
        assert(eps =~= Seq::<EndpointView>::empty());
        assert(endpoint_fields(eps) =~= Seq::<u8>::empty());
    }
}

/// A list already in signing order is left as it is by the signing sort.
proof fn lemma_signing_order_kept(eps: Seq<EndpointView>)
    requires
        eps.len() <= usize::MAX,
        in_signing_order(eps),
    ensures
        signing_endpoints(eps) == eps,
{
    let before = signing_before(eps);
    assert forall|i: usize, j: usize| 0 < i < eps.len() && j + 1 == i implies !#[trigger] before(
        i,
        j,
    ) by {
        assert(!endpoint_before(eps[i as int], eps[i as int - 1]));
    }
    lemma_stable_order_identity(eps.len(), before);
    assert(signing_endpoints(eps) =~= eps);
}

/// No two byte strings are each less than the other.
pub(crate) proof fn lemma_lex_lt_asymmetric(a: Seq<u8>, b: Seq<u8>)
    ensures
        !(lex_lt(a, b) && lex_lt(b, a)),
{
    if lex_lt(a, b) && lex_lt(b, a) {
        if exists|i: int| 0 <= i < a.len() && i < b.len() && a[i] < b[i] && (forall|j: int| 0 <= j < i ==> a[j] == b[j]) {
            let i = choose|i: int| 0 <= i < a.len() && i < b.len() && a[i] < b[i] && (forall|j: int| 0 <= j < i ==> a[j] == b[j]);
            if exists|k: int| 0 <= k < b.len() && k < a.len() && b[k] < a[k] && (forall|j: int| 0 <= j < k ==> b[j] == a[j]) {
                let k = choose|k: int| 0 <= k < b.len() && k < a.len() && b[k] < a[k] && (forall|j: int| 0 <= j < k ==> b[j] == a[j]);
                if i < k {
                    assert(b[i] == a[i]);
                } else if k < i {
                    assert(a[k] == b[k]);
                }
            } else {
                assert(a[i] == b[i]);
            }
        } else {
            if exists|k: int| 0 <= k < b.len() && k < a.len() && b[k] < a[k] && (forall|j: int| 0 <= j < k ==> b[j] == a[j]) {
                let k = choose|k: int| 0 <= k < b.len() && k < a.len() && b[k] < a[k] && (forall|j: int| 0 <= j < k ==> b[j] == a[j]);
                assert(a[k] == b[k]);
            }
        }
    }
}

/// Sorting the endpoints into signing order gives a list in signing order, made of the
/// same endpoints.
proof fn lemma_signing_endpoints_shape(eps: Seq<EndpointView>)
    requires
        eps.len() <= usize::MAX,
    ensures
        in_signing_order(signing_endpoints(eps)),
        signing_endpoints(eps).len() == eps.len(),
        forall|i: int|
            0 <= i < eps.len() ==> exists|k: int| 0 <= k < eps.len() && #[trigger] signing_endpoints(eps)[i] == eps[k],
{
    let before = signing_before(eps);
    assert forall|x: usize, y: usize| #[trigger] before(x, y) implies !before(y, x) by {
        lemma_lex_lt_asymmetric(eps[x as int].endpoint_id, eps[y as int].endpoint_id);
    }
    lemma_stable_order_adjacent(eps.len(), before);
    lemma_stable_order_shape(eps.len(), before);
    let order = stable_order(eps.len(), before);
    let sorted = signing_endpoints(eps);
    assert forall|i: int| 0 < i < sorted.len() implies !endpoint_before(#[trigger] sorted[i], sorted[i - 1]) by {
        assert(!before(order[i], order[i - 1]));
    }
    assert forall|i: int| 0 <= i < eps.len() implies exists|k: int|
        0 <= k < eps.len() && #[trigger] sorted[i] == eps[k] by {
        assert(sorted[i] == eps[order[i] as int]);
    }
}

/// The signing layout orders the endpoints ascending by priority, and endpoints of equal
/// priority ascending by ID (byte-wise, as Rust compares arrays): of two neighbours the
/// first has the lower priority, or the same priority and an ID that is not greater. The
/// layout holds the directory's own endpoints, as many as there are.
pub proof fn lemma_signing_order(eps: Seq<EndpointView>)
    requires
        eps.len() <= usize::MAX,
    ensures
        signing_endpoints(eps).len() == eps.len(),
        forall|i: int|
            0 <= i < eps.len() ==> exists|k: int| 0 <= k < eps.len() && #[trigger] signing_endpoints(eps)[i] == eps[k],
        forall|i: int|
            0 < i < eps.len() ==> {
                let a = signing_endpoints(eps)[i - 1];
                let b = #[trigger] signing_endpoints(eps)[i];
                a.priority < b.priority || (a.priority == b.priority && !lex_lt(b.endpoint_id, a.endpoint_id))
            },
{
    lemma_signing_endpoints_shape(eps);
}

/// Of two 16-byte IDs that differ, exactly one is less than the other: the first byte
/// where they differ decides.
pub proof fn lemma_lex_lt_total(a: Seq<u8>, b: Seq<u8>, i: int)
    requires
        a.len() == b.len(),
        0 <= i < a.len(),
        a[i] < b[i],
        forall|j: int| 0 <= j < i ==> a[j] == b[j],
    ensures
        lex_lt(a, b),
        !lex_lt(b, a),
{
    lemma_lex_lt_asymmetric(a, b);
}

/// Reading back what `encode` wrote gives the same directory with its endpoints in
/// signing order (the layout fixes that order), for every directory that can be signed
/// and whose URLs carry the accepted schemes; a directory already in signing order comes
/// back unchanged.
#[verifier::spinoff_prover]
#[verifier::rlimit(40)]
pub proof fn lemma_directory_round_trip(d: DirectoryView)
    requires
        directory_well_formed(d),
        directory_signable(d),
        forall|i: int| 0 <= i < d.endpoints.len() ==> endpoint_schemes_ok(#[trigger] d.endpoints[i]),
    ensures
        spec_encode_directory(d) matches Ok(b) && spec_decode_directory(b) == Ok::<DirectoryView, TransportError>(
            DirectoryView { endpoints: signing_endpoints(d.endpoints), ..d },
        ),
        in_signing_order(d.endpoints) ==> (spec_encode_directory(d) matches Ok(b) && spec_decode_directory(b)
            == Ok::<DirectoryView, TransportError>(d)),
{
    let eps = d.endpoints;
    lemma_signing_endpoints_shape(eps);
    let sorted = signing_endpoints(eps);
    let d2 = DirectoryView { endpoints: sorted, ..d };
    lemma_signing_order_kept(sorted);
    assert forall|i: int| 0 <= i < sorted.len() implies (#[trigger] sorted[i]).endpoint_id.len() == 16
        && endpoint_fits(sorted[i]) && endpoint_schemes_ok(sorted[i]) by {
        let k = choose|k: int| 0 <= k < eps.len() && sorted[i] == eps[k];
        assert(eps[k].endpoint_id.len() == 16 && endpoint_fits(eps[k]) && endpoint_schemes_ok(eps[k]));
    }
    assert(directory_signing_bytes(d2) == directory_signing_bytes(d));
    lemma_directory_round_trip_sorted(d2);
    if in_signing_order(eps) {
        lemma_signing_order_kept(eps);
        assert(d2 == d);
    }
}

/// The round trip of a directory whose endpoints are already in signing order.
#[verifier::spinoff_prover]
#[verifier::rlimit(40)]
proof fn lemma_directory_round_trip_sorted(d: DirectoryView)

    requires
        directory_well_formed(d),
        directory_signable(d),
        forall|i: int| 0 <= i < d.endpoints.len() ==> endpoint_schemes_ok(#[trigger] d.endpoints[i]),
        in_signing_order(d.endpoints),
    ensures
        spec_encode_directory(d) matches Ok(b) && spec_decode_directory(b) == Ok::<
            DirectoryView,
            TransportError,
        >(d),
{
    lemma_signing_order_kept(d.endpoints);
    let head = directory_magic() + be64(d.version) + be64(d.issued_at) + be64(d.expires_at) + be16(
        d.endpoints.len() as u16,
    );
    let f = endpoint_fields(d.endpoints);
    let b = head + f + d.signature;
    assert(directory_signing_bytes(d) == head + f);
    assert forall|i: int| 0 <= i < d.endpoints.len() implies (#[trigger] d.endpoints[i]).endpoint_id.len()
        == 16 && endpoint_fits(d.endpoints[i]) && endpoint_schemes_ok(d.endpoints[i]) by {}
    lemma_parse_endpoint_fields(head, d.endpoints, d.signature);
    assert(head.len() == 54);
    assert(b.subrange(0, 54) =~= head);
    assert(head.subrange(0, 28) =~= directory_magic());
    assert(head.subrange(28, 36) =~= be64(d.version));
    assert(head.subrange(36, 44) =~= be64(d.issued_at));
    assert(head.subrange(44, 52) =~= be64(d.expires_at));
    assert(head.subrange(52, 54) =~= be16(d.endpoints.len() as u16));
    assert(b.subrange(0, 28) == head.subrange(0, 28));
    assert(b.subrange(28, 36) == head.subrange(28, 36));
    assert(b.subrange(36, 44) == head.subrange(36, 44));
    assert(b.subrange(44, 52) == head.subrange(44, 52));
    assert(b.subrange(52, 54) == head.subrange(52, 54));
    lemma_be64_round_trip(d.version);
    lemma_be64_round_trip(d.issued_at);
    lemma_be64_round_trip(d.expires_at);
    lemma_be16_round_trip(d.endpoints.len() as u16);
    let q = (head.len() + f.len()) as int;
    assert(b.subrange(q, q + 64) =~= d.signature);
    let r = spec_decode_directory(b);
    assert(r == Ok::<DirectoryView, TransportError>(d));
}


// ---------------------------------------------------------------------------
// Verifying a directory
// ---------------------------------------------------------------------------
/// Whether a directory is inside its validity window at `now`: issued no more than five
/// minutes ahead of the clock, not yet expired, and issued before it expires.
pub open spec fn directory_current(d: DirectoryView, now: u64) -> bool {
    !(d.issued_at > now.saturating_add(ISSUE_CLOCK_SKEW_SECONDS) || d.expires_at <= now
        || d.issued_at >= d.expires_at)
}

/// What `verify` gives: rollback is checked first, then the validity window, then the
/// key, the layout and the signature.
pub open spec fn spec_verify_directory(
    d: DirectoryView,
    key: Seq<u8>,
    now: u64,
    minimum_version: u64,
) -> Result<(), TransportError> {
    if d.version < minimum_version {
        Err(TransportError::DirectoryRollback)
    } else if !directory_current(d, now) {
        Err(TransportError::ExpiredDirectory)
    } else if !ed25519_key_valid(key) {
        Err(TransportError::InvalidDirectorySignature)
    } else {
        match spec_signing_bytes(d) {
            Err(e) => Err(e),
            Ok(b) => if ed25519_accepts(key, b, d.signature) {
                Ok(())
            } else {
                Err(TransportError::InvalidDirectorySignature)
            },
        }
    }
}

impl SignedRelayDirectory {
    /// Accepts the directory only if it is not older than `minimum_version`, is valid at
    /// `now`, and carries a signature by `public_key` over its signing bytes.
    pub fn verify(&self, public_key: &[u8; 32], now: u64, minimum_version: u64) -> (r: Result<
        (),
        TransportError,
    >)
        ensures
            r == spec_verify_directory(self@, public_key@, now, minimum_version),
    {
        if self.version < minimum_version {
            return Err(TransportError::DirectoryRollback);
        }
        if self.issued_at > now.saturating_add(ISSUE_CLOCK_SKEW_SECONDS) || self.expires_at <= now
            || self.issued_at >= self.expires_at {
            return Err(TransportError::ExpiredDirectory);
        }
        if !ed25519_key_decodes(public_key) {
            return Err(TransportError::InvalidDirectorySignature);
        }
        let bytes = self.signing_bytes()?;
        if ed25519_verify(public_key, bytes.as_slice(), &self.signature) {
            Ok(())
        } else {
            Err(TransportError::InvalidDirectorySignature)
        }
    }
}

} // verus!
