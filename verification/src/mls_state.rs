//! The messaging-layer boundary: member credentials, and the encrypted snapshot in
//! which a device keeps its MLS group state.
//!
//! The group cryptography itself is OpenMLS's; what this module decides is which member
//! credentials are genuine, how a state snapshot is laid out and sealed, and which
//! requests are well formed before they reach OpenMLS.
use crate::bytes::{array16_at, array32_at, be32, be32_value, bytes_equal, push_be32, push_bytes, read_be32};
use crate::identity::{
    account_id_from_root_public, account_id_spec, certificate_fingerprint, certificate_verifies,
    device_certificate_fingerprint, verify_device_certificate, DeviceCertificate,
};
use crate::primitives::AEAD_MESSAGE_LIMIT;
use crate::sealed::{open_blob, open_blob_spec, seal_with_fresh_nonce, seals};
use crate::transport::{lex_lt, stable_order};
use vstd::prelude::*;
use vstd::string::StringExecFns;
use vstd::string::StringSliceAdditionalSpecFns;

verus! {

/// The associated data under which group state snapshots are sealed.
pub const STATE_AAD: &'static str = "resilient/openmls-state/v1";

/// The length of an encoded member credential.
pub const MEMBER_CREDENTIAL_LEN: usize = 65;

/// The longest group ID.
pub const MAX_GROUP_ID_LEN: usize = 255;

/// The most key packages generated at once.
pub const MAX_KEY_PACKAGES: usize = 100;

#[derive(Clone, Copy, Debug, PartialEq, Eq)]
pub enum CryptoError {
    /// An OpenMLS operation failed; the text names it.
    OpenMls(&'static str),
    InvalidMessage,
    ConversationNotFound,
    InvalidCredential,
    StateAuthentication,
}

impl CryptoError {
    /// The message that describes the error.
    pub fn message(&self) -> (r: String)
        ensures
            r@ == (match *self {
                CryptoError::OpenMls(what) => "OpenMLS operation failed: "@ + what@,
                CryptoError::InvalidMessage => "invalid or unauthenticated MLS data"@,
                CryptoError::ConversationNotFound => "conversation was not found"@,
                CryptoError::InvalidCredential => "member credential is invalid"@,
                CryptoError::StateAuthentication => "encrypted state could not be authenticated"@,
            }),
    {
        match self {
            CryptoError::OpenMls(what) => {
                let mut text = String::from_str("OpenMLS operation failed: ");
                text.append(what);
                text
            },
            CryptoError::InvalidMessage => String::from_str("invalid or unauthenticated MLS data"),
            CryptoError::ConversationNotFound => String::from_str("conversation was not found"),
            CryptoError::InvalidCredential => String::from_str("member credential is invalid"),
            CryptoError::StateAuthentication => String::from_str("encrypted state could not be authenticated"),
        }
    }
}

#[derive(Clone, Copy, Debug, Eq, PartialEq)]
pub struct MemberCredential {
    pub device_id: [u8; 16],
    pub account_id: [u8; 32],
    pub certificate_fingerprint: [u8; 16],
}

#[derive(Clone, Debug, Eq, PartialEq)]
pub struct GroupChange {
    pub commit: Vec<u8>,
    pub welcome: Option<Vec<u8>>,
}

#[derive(Debug, Eq, PartialEq)]
pub enum IncomingMessage {
    Application(Vec<u8>),
    CommitApplied,
    ProposalQueued,
}

// ---------------------------------------------------------------------------
// Member credentials
// ---------------------------------------------------------------------------
/// A credential as its MLS leaf carries it: version 1, device ID, account ID and the
/// device certificate's fingerprint.
pub open spec fn credential_bytes(c: MemberCredential) -> Seq<u8> {
    seq![1u8] + c.device_id@ + c.account_id@ + c.certificate_fingerprint@
}

impl MemberCredential {
    pub fn encode(&self) -> (r: Vec<u8>)
        ensures
            r@ == credential_bytes(*self),
    {
        let mut value: Vec<u8> = Vec::new();
        value.push(1u8);
        push_bytes(&mut value, &self.device_id);
        push_bytes(&mut value, &self.account_id);
        push_bytes(&mut value, &self.certificate_fingerprint);
        assert(value@ =~= credential_bytes(*self));
        value
    }

    /// Reads a credential of exactly 65 bytes that starts with version 1.
    pub fn decode(value: &[u8]) -> (r: Result<MemberCredential, CryptoError>)
        ensures
            r is Ok <==> (value@.len() == MEMBER_CREDENTIAL_LEN && value@[0] == 1),
            r matches Ok(c) ==> credential_bytes(c) == value@,
            r is Err ==> r == Err::<MemberCredential, CryptoError>(CryptoError::InvalidCredential),
    {
        if value.len() != MEMBER_CREDENTIAL_LEN || value[0] != 1 {
            return Err(CryptoError::InvalidCredential);
        }
        let c = MemberCredential {
            device_id: array16_at(value, 1),
            account_id: array32_at(value, 17),
            certificate_fingerprint: array16_at(value, 49),
        };
        assert(credential_bytes(c) =~= value@);
        Ok(c)
    }
}

/// Reading back an encoded credential gives the credential.
pub proof fn lemma_credential_round_trip(c: MemberCredential)
    ensures
        credential_bytes(c).len() == MEMBER_CREDENTIAL_LEN,
        credential_bytes(c)[0] == 1,
        forall|d: MemberCredential| credential_bytes(d) == credential_bytes(c) ==> d == c,
{
    assert forall|d: MemberCredential| credential_bytes(d) == credential_bytes(c) implies d == c by {
        let b = credential_bytes(c);
        assert(d.device_id@ =~= b.subrange(1, 17));
        assert(c.device_id@ =~= b.subrange(1, 17));
        assert(d.account_id@ =~= b.subrange(17, 49));
        assert(c.account_id@ =~= b.subrange(17, 49));
        assert(d.certificate_fingerprint@ =~= b.subrange(49, 65));
        assert(c.certificate_fingerprint@ =~= b.subrange(49, 65));
        assert(d.device_id =~= c.device_id);
        assert(d.account_id =~= c.account_id);
        assert(d.certificate_fingerprint =~= c.certificate_fingerprint);
    }
}

/// A credential is genuine for a root key and a device certificate when it names the
/// root's account, the certificate's device and the certificate's fingerprint, and the
/// root key signed the certificate.
pub open spec fn credential_genuine(c: MemberCredential, root_public: Seq<u8>, cert: DeviceCertificate) -> bool {
    &&& c.account_id@ == account_id_spec(root_public)
    &&& c.device_id@ == cert.device_id@
    &&& c.certificate_fingerprint@ == certificate_fingerprint(cert)
    &&& certificate_verifies(root_public, cert)
}

/// Reads a credential and accepts it only if it is genuine for the root key and the
/// device certificate.
pub fn verify_member_credential(value: &[u8], root_public_key: &[u8; 32], certificate: &DeviceCertificate) -> (r:
    Result<MemberCredential, CryptoError>)
    ensures
        r is Ok <==> (value@.len() == MEMBER_CREDENTIAL_LEN && value@[0] == 1 && exists|c: MemberCredential|
            credential_bytes(c) == value@ && credential_genuine(c, root_public_key@, *certificate)),
        r matches Ok(c) ==> credential_bytes(c) == value@ && credential_genuine(
            c,
            root_public_key@,
            *certificate,
        ),
        r is Err ==> r == Err::<MemberCredential, CryptoError>(CryptoError::InvalidCredential),
{
    let member = MemberCredential::decode(value)?;
    proof {
        lemma_credential_round_trip(member);
    }
    let account = account_id_from_root_public(root_public_key);
    let fingerprint = device_certificate_fingerprint(certificate);
    if !bytes_equal(&member.account_id, &account) || !bytes_equal(
        &member.device_id,
        &certificate.device_id,
    ) || !bytes_equal(&member.certificate_fingerprint, &fingerprint) || !verify_device_certificate(
        root_public_key,
        certificate,
    ) {
        return Err(CryptoError::InvalidCredential);
    }
    Ok(member)
}

/// A group ID of 1 to 255 bytes.
pub fn check_group_id(group_id: &[u8]) -> (r: Result<(), CryptoError>)
    ensures
        r is Ok <==> 0 < group_id@.len() <= MAX_GROUP_ID_LEN,
        r is Err ==> r == Err::<(), CryptoError>(CryptoError::InvalidMessage),
{
    if group_id.len() == 0 || group_id.len() > MAX_GROUP_ID_LEN {
        Err(CryptoError::InvalidMessage)
    } else {
        Ok(())
    }
}

/// How many key packages one request generates: at most 100.
pub fn key_package_count(count: usize) -> (r: usize)
    ensures
        r == if count < MAX_KEY_PACKAGES { count } else { MAX_KEY_PACKAGES },
{
    if count < MAX_KEY_PACKAGES {
        count
    } else {
        MAX_KEY_PACKAGES
    }
}

/// The leaf index of the first group member whose credential is `wanted`.
pub fn find_member_index(members: &Vec<(Vec<u8>, u32)>, wanted: &[u8]) -> (r: Result<u32, CryptoError>)
    ensures
        match r {
            Ok(index) => exists|i: int|
                0 <= i < members@.len() && members@[i].0@ == wanted@ && members@[i].1 == index && (
                forall|j: int| 0 <= j < i ==> (#[trigger] members@[j]).0@ != wanted@),
            Err(e) => e == CryptoError::InvalidCredential && forall|j: int|
                0 <= j < members@.len() ==> (#[trigger] members@[j]).0@ != wanted@,
        },
{
    let mut i: usize = 0;
    while i < members.len()
        invariant
            0 <= i <= members@.len(),
            forall|j: int| 0 <= j < i ==> (#[trigger] members@[j]).0@ != wanted@,
        decreases members@.len() - i,
    {
        if bytes_equal(members[i].0.as_slice(), wanted) {
            return Ok(members[i].1);
        }
        i = i + 1;
    }
    Err(CryptoError::InvalidCredential)
}

// ---------------------------------------------------------------------------
// State snapshots
// ---------------------------------------------------------------------------
/// What a device keeps of one group: its signer, its credential's identity bytes, the
/// group ID and the storage entries of the MLS provider.
pub struct StateSnapshot {
    pub signer: Vec<u8>,
    pub identity: Vec<u8>,
    pub group_id: Vec<u8>,
    pub entries: Vec<(Vec<u8>, Vec<u8>)>,
}

/// The mathematical value of a state snapshot.
pub struct SnapshotView {
    pub signer: Seq<u8>,
    pub identity: Seq<u8>,
    pub group_id: Seq<u8>,
    pub entries: Seq<(Seq<u8>, Seq<u8>)>,
}

/// The views of storage entries.
pub open spec fn entry_views(entries: Seq<(Vec<u8>, Vec<u8>)>) -> Seq<(Seq<u8>, Seq<u8>)> {
    entries.map_values(|e: (Vec<u8>, Vec<u8>)| (e.0@, e.1@))
}

impl View for StateSnapshot {
    type V = SnapshotView;

    open spec fn view(&self) -> SnapshotView {
        SnapshotView {
            signer: self.signer@,
            identity: self.identity@,
            group_id: self.group_id@,
            entries: entry_views(self.entries@),
        }
    }
}

/// A length-prefixed field: four big-endian length bytes, then the bytes.
pub open spec fn field_bytes(v: Seq<u8>) -> Seq<u8> {
    be32(v.len() as u32) + v
}

/// Storage entries one after the other, key then value.
pub open spec fn entries_bytes(entries: Seq<(Seq<u8>, Seq<u8>)>) -> Seq<u8>
    decreases entries.len(),
{
    if entries.len() == 0 {
        Seq::empty()
    } else {
        entries_bytes(entries.drop_last()) + field_bytes(entries.last().0) + field_bytes(
            entries.last().1,
        )
    }
}

/// Index `i` goes before index `j` when its key is smaller.
pub open spec fn key_before(entries: Seq<(Seq<u8>, Seq<u8>)>) -> spec_fn(usize, usize) -> bool {
    |i: usize, j: usize| lex_lt(entries[i as int].0, entries[j as int].0)
}

/// The entries sorted by key (a stable sort).
pub open spec fn sorted_entries(entries: Seq<(Seq<u8>, Seq<u8>)>) -> Seq<(Seq<u8>, Seq<u8>)> {
    stable_order(entries.len(), key_before(entries)).map_values(|i: usize| entries[i as int])
}

/// A snapshot lays out the storage entries ascending by key (byte-wise, as Rust compares
/// slices): no entry's key is less than the key of the entry before it; they are the
/// storage's own entries, as many as there are.
pub proof fn lemma_sorted_entries_ascending(entries: Seq<(Seq<u8>, Seq<u8>)>)
    requires
        entries.len() <= usize::MAX,
    ensures
        sorted_entries(entries).len() == entries.len(),
        forall|i: int|
            0 <= i < entries.len() ==> exists|k: int| 0 <= k < entries.len() && #[trigger] sorted_entries(entries)[i]
                == entries[k],
        forall|i: int|
            0 < i < entries.len() ==> !lex_lt(#[trigger] sorted_entries(entries)[i].0, sorted_entries(entries)[i - 1].0),
{
    let before = key_before(entries);
    assert forall|x: usize, y: usize| #[trigger] before(x, y) implies !before(y, x) by {
        crate::transport::lemma_lex_lt_asymmetric(entries[x as int].0, entries[y as int].0);
    }
    crate::transport::lemma_stable_order_adjacent(entries.len(), before);
    crate::transport::lemma_stable_order_shape(entries.len(), before);
    let order = stable_order(entries.len(), before);
    let sorted = sorted_entries(entries);
    assert forall|i: int| 0 < i < entries.len() implies !lex_lt(#[trigger] sorted[i].0, sorted[i - 1].0) by {
        assert(!before(order[i], order[i - 1]));
    }
    assert forall|i: int| 0 <= i < entries.len() implies exists|k: int|
        0 <= k < entries.len() && #[trigger] sorted[i] == entries[k] by {
        assert(sorted[i] == entries[order[i] as int]);
    }
}

/// The plaintext of a snapshot: signer, identity, group ID, the entry count and the
/// entries sorted by key.
pub open spec fn snapshot_bytes(s: SnapshotView) -> Seq<u8> {
    field_bytes(s.signer) + field_bytes(s.identity) + field_bytes(s.group_id) + be32(
        s.entries.len() as u32,
    ) + entries_bytes(sorted_entries(s.entries))
}

/// Whether `a < b` in the order of byte strings.
fn bytes_less(a: &[u8], b: &[u8]) -> (r: bool)
    ensures
        r == lex_lt(a@, b@),
{
    let n = if a.len() < b.len() {
        a.len()
    } else {
        b.len()
    };
    let mut i: usize = 0;
    while i < n
        invariant
            n <= a@.len(),
            n <= b@.len(),
            n == a@.len() || n == b@.len(),
            0 <= i <= n,
            forall|j: int| 0 <= j < i ==> a@[j] == b@[j],
        decreases n - i,
    {
        if a[i] != b[i] {
            let r = a[i] < b[i];
            proof {
                if !r {
                    assert forall|k: int|
                        0 <= k < a@.len() && k < b@.len() && a@[k] < b@[k] implies !(forall|j: int|
                        0 <= j < k ==> a@[j] == b@[j]) by {
                        if k > i {
                            assert(a@[i as int] != b@[i as int]);
                        }
                    }
                    if a@.len() < b@.len() {
                        assert(a@[i as int] != b@[i as int]);
                    }
                }
            }
            return r;
        }
        i = i + 1;
    }
    a.len() < b.len()
}

fn entry_order(entries: &Vec<(Vec<u8>, Vec<u8>)>) -> (order: Vec<usize>)
    ensures
        order@ == stable_order(entries@.len(), key_before(entry_views(entries@))),
        forall|i: int| 0 <= i < order@.len() ==> #[trigger] order@[i] < entries@.len(),
{
    let ghost views = entry_views(entries@);
    let ghost before = key_before(views);
    let n = entries.len();
    let mut order: Vec<usize> = Vec::new();
    let mut k: usize = 0;
    while k < n
        invariant
            n == entries@.len(),
            views == entry_views(entries@),
            before == key_before(views),
            0 <= k <= n,
            order@ == stable_order(k as nat, before),
            order@.len() == k,
            forall|i: int| 0 <= i < k ==> #[trigger] order@[i] < k,
        decreases n - k,
    {
        let mut j: usize = order.len();
        while j > 0 && bytes_less(entries[k].0.as_slice(), entries[order[j - 1]].0.as_slice())
            invariant
                n == entries@.len(),
                views == entry_views(entries@),
                before == key_before(views),
                k < n,
                order@.len() == k,
                forall|i: int| 0 <= i < k ==> #[trigger] order@[i] < k,
                0 <= j <= k,
                forall|m: int| j <= m < k ==> before(k, #[trigger] order@[m]),
            decreases j,
        {
            assert(views[k as int].0 == entries@[k as int].0@);
            assert(views[order@[j - 1] as int].0 == entries@[order@[j - 1] as int].0@);
            j = j - 1;
        }
        proof {
            if j > 0 {
                assert(views[k as int].0 == entries@[k as int].0@);
                assert(views[order@[j - 1] as int].0 == entries@[order@[j - 1] as int].0@);
            }
            crate::transport::lemma_insert_at(order@, k, before, j as int);
            crate::transport::lemma_stable_order_shape((k + 1) as nat, before);
        }
        order.insert(j, k);
        assert(order@ =~= stable_order(k as nat, before).take(j as int).push(k) + stable_order(
            k as nat,
            before,
        ).skip(j as int));
        k = k + 1;
    }
    order
}

fn put_field(out: &mut Vec<u8>, value: &[u8])
    ensures
        final(out)@ == old(out)@ + field_bytes(value@),
{
    push_be32(out, value.len() as u32);
    push_bytes(out, value);
    assert(final(out)@ =~= old(out)@ + field_bytes(value@));
}

/// Lays out a snapshot, its entries sorted by key.
pub fn encode_state_snapshot(snapshot: &StateSnapshot) -> (r: Vec<u8>)
    ensures
        r@ == snapshot_bytes(snapshot@),
{
    let ghost s = snapshot@;
    let order = entry_order(&snapshot.entries);
    let count = snapshot.entries.len();
    proof {
        crate::transport::lemma_stable_order_shape(count as nat, key_before(s.entries));
    }
    let ghost sorted = sorted_entries(s.entries);
    let mut plain: Vec<u8> = Vec::new();
    put_field(&mut plain, snapshot.signer.as_slice());
    put_field(&mut plain, snapshot.identity.as_slice());
    put_field(&mut plain, snapshot.group_id.as_slice());
    push_be32(&mut plain, snapshot.entries.len() as u32);
    let ghost head = plain@;
    let n = snapshot.entries.len();
    let mut p: usize = 0;
    while p < n
        invariant
            n == snapshot.entries@.len(),
            s == snapshot@,
            order@ == stable_order(n as nat, key_before(s.entries)),
            order@.len() == n,
            forall|k: int| 0 <= k < n ==> #[trigger] order@[k] < n,
            sorted == sorted_entries(s.entries),
            0 <= p <= n,
            plain@ == head + entries_bytes(sorted.take(p as int)),
        decreases n - p,
    {
        let e = &snapshot.entries[order[p]];
        assert(sorted[p as int] == (e.0@, e.1@));
        put_field(&mut plain, e.0.as_slice());
        put_field(&mut plain, e.1.as_slice());
        assert(sorted.take(p + 1).drop_last() =~= sorted.take(p as int));
        assert(plain@ =~= head + entries_bytes(sorted.take(p + 1)));
        p = p + 1;
    }
    assert(sorted.take(n as int) =~= sorted);
    assert(plain@ =~= snapshot_bytes(s));
    plain
}

/// Reading a length-prefixed field at `p`: its bytes and the position after it.
pub open spec fn parse_field(s: Seq<u8>, p: int) -> Option<(Seq<u8>, int)> {
    if p < 0 || p + 4 > s.len() {
        None
    } else {
        let n = be32_value(s.subrange(p, p + 4)) as int;
        if p + 4 + n > s.len() {
            None
        } else {
            Some((s.subrange(p + 4, p + 4 + n), p + 4 + n))
        }
    }
}

/// Reading `count` entries from `p`.
pub open spec fn parse_entries(s: Seq<u8>, p: int, count: nat) -> Option<(Seq<(Seq<u8>, Seq<u8>)>, int)>
    decreases count,
{
    if count == 0 {
        Some((Seq::empty(), p))
    } else {
        match parse_entries(s, p, (count - 1) as nat) {
            None => None,
            Some((es, q)) => match parse_field(s, q) {
                None => None,
                Some((k, q1)) => match parse_field(s, q1) {
                    None => None,
                    Some((v, q2)) => Some((es.push((k, v)), q2)),
                },
            },
        }
    }
}

/// What reading a snapshot gives: the fields and entries that the bytes hold exactly,
/// or a state-authentication failure.
pub open spec fn spec_decode_snapshot(s: Seq<u8>) -> Result<SnapshotView, CryptoError> {
    match parse_field(s, 0) {
        None => Err(CryptoError::StateAuthentication),
        Some((signer, p1)) => match parse_field(s, p1) {
            None => Err(CryptoError::StateAuthentication),
            Some((identity, p2)) => match parse_field(s, p2) {
                None => Err(CryptoError::StateAuthentication),
                Some((group_id, p3)) => if p3 + 4 > s.len() {
                    Err(CryptoError::StateAuthentication)
                } else {
                    match parse_entries(s, p3 + 4, be32_value(s.subrange(p3, p3 + 4)) as nat) {
                        None => Err(CryptoError::StateAuthentication),
                        Some((entries, q)) => if q != s.len() {
                            Err(CryptoError::StateAuthentication)
                        } else {
                            Ok(SnapshotView { signer, identity, group_id, entries })
                        },
                    }
                },
            },
        },
    }
}

fn take_u32(input: &[u8], at: usize) -> (r: Result<u32, CryptoError>)
    requires
        at <= input@.len(),
    ensures
        at + 4 <= input@.len() ==> r == Ok::<u32, CryptoError>(be32_value(input@.subrange(at as int, at + 4))),
        at + 4 > input@.len() ==> r == Err::<u32, CryptoError>(CryptoError::StateAuthentication),
{
    if input.len() - at < 4 {
        return Err(CryptoError::StateAuthentication);
    }
    Ok(read_be32(input, at))
}

fn take_bytes(input: &[u8], at: usize) -> (r: Result<(Vec<u8>, usize), CryptoError>)
    requires
        at <= input@.len(),
    ensures
        match parse_field(input@, at as int) {
            Some((v, q)) => r matches Ok((x, p)) && x@ == v && p == q,
            None => r == Err::<(Vec<u8>, usize), CryptoError>(CryptoError::StateAuthentication),
        },
{
    let len = take_u32(input, at)? as usize;
    if input.len() - at - 4 < len {
        return Err(CryptoError::StateAuthentication);
    }
    let start = at + 4;
    let value = vstd::slice::slice_to_vec(vstd::slice::slice_subrange(input, start, start + len));
    Ok((value, start + len))
}

/// Reads a snapshot laid out by `encode_state_snapshot`.
pub fn decode_state_snapshot(plain: &[u8]) -> (r: Result<StateSnapshot, CryptoError>)
    ensures
        match spec_decode_snapshot(plain@) {
            Ok(v) => r matches Ok(x) && x@ == v,
            Err(e) => r == Err::<StateSnapshot, CryptoError>(e),
        },
{
    let ghost s = plain@;
    let (signer, p1) = take_bytes(plain, 0)?;
    let (identity, p2) = take_bytes(plain, p1)?;
    let (group_id, p3) = take_bytes(plain, p2)?;
    let count = take_u32(plain, p3)?;
    let total = plain.len();
    let mut entries: Vec<(Vec<u8>, Vec<u8>)> = Vec::new();
    let mut at: usize = p3 + 4;
    let mut k: u32 = 0;
    while k < count
        invariant
            s == plain@,
            total == s.len(),
            p3 + 4 <= s.len(),
            count == be32_value(s.subrange(p3 as int, p3 + 4)),
            0 <= k <= count,
            at <= s.len(),
            parse_entries(s, p3 + 4, k as nat) == Some((entry_views(entries@), at as int)),
            parse_field(s, 0) == Some((signer@, p1 as int)),
            parse_field(s, p1 as int) == Some((identity@, p2 as int)),
            parse_field(s, p2 as int) == Some((group_id@, p3 as int)),
        decreases count - k,
    {
        let (key, q1) = match take_bytes(plain, at) {
            Ok(x) => x,
            Err(e) => {
                proof {
                    lemma_parse_entries_stops(s, p3 + 4, (k + 1) as nat, count as nat);
                }
                return Err(e);
            },
        };
        let (value, q2) = match take_bytes(plain, q1) {
            Ok(x) => x,
            Err(e) => {
                proof {
                    lemma_parse_entries_stops(s, p3 + 4, (k + 1) as nat, count as nat);
                }
                return Err(e);
            },
        };
        let ghost before = entries@;
        entries.push((key, value));
        assert(entry_views(entries@) =~= entry_views(before).push((key@, value@)));
        at = q2;
        k = k + 1;
    }
    if at != plain.len() {
        return Err(CryptoError::StateAuthentication);
    }
    let snapshot = StateSnapshot { signer, identity, group_id, entries };
    Ok(snapshot)
}

/// Once reading entries fails, reading more of them fails too.
proof fn lemma_parse_entries_stops(s: Seq<u8>, p: int, a: nat, b: nat)
    requires
        a <= b,
        parse_entries(s, p, a) is None,
    ensures
        parse_entries(s, p, b) is None,
    decreases b - a,
{
    if a < b {
        lemma_parse_entries_stops(s, p, a, (b - 1) as nat);
    }
}

// ---------------------------------------------------------------------------
// Sealed snapshots
// ---------------------------------------------------------------------------
/// What opening a sealed snapshot gives.
pub open spec fn spec_decrypt_state(key: Seq<u8>, blob: Seq<u8>) -> Result<Seq<u8>, CryptoError> {
    if blob.len() < 40 {
        Err(CryptoError::StateAuthentication)
    } else {
        match open_blob_spec(key, STATE_AAD.spec_bytes(), blob) {
            Some(p) => Ok(p),
            None => Err(CryptoError::StateAuthentication),
        }
    }
}

/// Seals a snapshot under a fresh nonce.
pub fn encrypt_state(key: &[u8; 32], plain: &[u8]) -> (r: Result<Vec<u8>, CryptoError>)
    ensures
        plain@.len() < AEAD_MESSAGE_LIMIT <==> r is Ok,
        r matches Ok(b) ==> seals(key@, STATE_AAD.spec_bytes(), plain@, b@),
        r matches Ok(b) ==> spec_decrypt_state(key@, b@) == Ok::<Seq<u8>, CryptoError>(plain@),
        r is Err ==> r == Err::<Vec<u8>, CryptoError>(CryptoError::StateAuthentication),
{
    match seal_with_fresh_nonce(key, STATE_AAD.as_bytes(), plain) {
        Some(b) => Ok(b),
        None => Err(CryptoError::StateAuthentication),
    }
}

/// Opens a sealed snapshot.
pub fn decrypt_state(key: &[u8; 32], blob: &[u8]) -> (r: Result<Vec<u8>, CryptoError>)
    ensures
        match spec_decrypt_state(key@, blob@) {
            Ok(p) => r matches Ok(v) && v@ == p,
            Err(e) => r == Err::<Vec<u8>, CryptoError>(e),
        },
{
    if blob.len() < 40 {
        return Err(CryptoError::StateAuthentication);
    }
    match open_blob(key, STATE_AAD.as_bytes(), blob) {
        Some(p) => Ok(p),
        None => Err(CryptoError::StateAuthentication),
    }
}

// ---------------------------------------------------------------------------
// Laws of the snapshot layout
// ---------------------------------------------------------------------------
/// Every byte string of a snapshot is shorter than 2^32 bytes, so that its length prefix
/// holds it, and there are fewer than 2^32 entries.
pub open spec fn snapshot_fits(s: SnapshotView) -> bool {
    &&& s.signer.len() <= u32::MAX
    &&& s.identity.len() <= u32::MAX
    &&& s.group_id.len() <= u32::MAX
    &&& s.entries.len() <= u32::MAX
    &&& forall|i: int|
        0 <= i < s.entries.len() ==> (#[trigger] s.entries[i]).0.len() <= u32::MAX && s.entries[i].1.len()
            <= u32::MAX
}

proof fn lemma_parse_field(t: Seq<u8>, p: int, v: Seq<u8>)
    requires
        v.len() <= u32::MAX,
        0 <= p,
        p + 4 + v.len() <= t.len(),
        t.subrange(p, p + 4 + v.len()) == field_bytes(v),
    ensures
        parse_field(t, p) == Some((v, p + 4 + v.len())),
{
    crate::bytes::lemma_be32_round_trip(v.len() as u32);
    assert(t.subrange(p, p + 4) =~= t.subrange(p, p + 4 + v.len()).subrange(0, 4));
    assert(field_bytes(v).subrange(0, 4) =~= be32(v.len() as u32));
    assert(t.subrange(p + 4, p + 4 + v.len()) =~= t.subrange(p, p + 4 + v.len()).subrange(
        4,
        4 + v.len() as int,
    ));
    assert(field_bytes(v).subrange(4, 4 + v.len() as int) =~= v);
}

proof fn lemma_parse_entries_bytes(t: Seq<u8>, p: int, es: Seq<(Seq<u8>, Seq<u8>)>)
    requires
        forall|i: int| 0 <= i < es.len() ==> (#[trigger] es[i]).0.len() <= u32::MAX && es[i].1.len() <= u32::MAX,
        0 <= p,
        p + entries_bytes(es).len() <= t.len(),
        t.subrange(p, p + entries_bytes(es).len()) == entries_bytes(es),
    ensures
        parse_entries(t, p, es.len()) == Some((es, p + entries_bytes(es).len())),
    decreases es.len(),
{
    if es.len() > 0 {
        let init = es.drop_last();
        let last = es.last();
        assert(es[es.len() - 1] == last);
        let fi = entries_bytes(init);
        let fk = field_bytes(last.0);
        let fv = field_bytes(last.1);
        let whole = entries_bytes(es);
        assert(whole == fi + fk + fv);
        assert forall|i: int| 0 <= i < init.len() implies (#[trigger] init[i]).0.len() <= u32::MAX
            && init[i].1.len() <= u32::MAX by {
            assert(init[i] == es[i]);
        }
        let a = p + fi.len();
        let b = a + fk.len();
        let e = b + fv.len();
        assert(t.subrange(p, a) =~= whole.subrange(0, fi.len() as int));
        assert(whole.subrange(0, fi.len() as int) =~= fi);
        lemma_parse_entries_bytes(t, p, init);
        assert(t.subrange(a, b) =~= whole.subrange(fi.len() as int, (fi.len() + fk.len()) as int));
        assert(whole.subrange(fi.len() as int, (fi.len() + fk.len()) as int) =~= fk);
        lemma_parse_field(t, a, last.0);
        assert(t.subrange(b, e) =~= whole.subrange((fi.len() + fk.len()) as int, whole.len() as int));
        assert(whole.subrange((fi.len() + fk.len()) as int, whole.len() as int) =~= fv);
        lemma_parse_field(t, b, last.1);
        assert(init.push(last) =~= es);
    } else {
        assert(es =~= Seq::<(Seq<u8>, Seq<u8>)>::empty());
        assert(entries_bytes(es) =~= Seq::<u8>::empty());
    }
}

/// Reading back a snapshot gives its signer, identity and group ID, and its entries
/// sorted by key: restoring a device's state loses and invents nothing.
#[verifier::rlimit(40)]
pub proof fn lemma_snapshot_round_trip(s: SnapshotView)
    requires
        snapshot_fits(s),
    ensures
        spec_decode_snapshot(snapshot_bytes(s)) == Ok::<SnapshotView, CryptoError>(
            SnapshotView { entries: sorted_entries(s.entries), ..s },
        ),
{
    let n = s.entries.len();
    crate::transport::lemma_stable_order_shape(n, key_before(s.entries));
    let order = stable_order(n, key_before(s.entries));
    let sorted = sorted_entries(s.entries);
    assert forall|i: int| 0 <= i < sorted.len() implies (#[trigger] sorted[i]).0.len() <= u32::MAX
        && sorted[i].1.len() <= u32::MAX by {
        assert(sorted[i] == s.entries[order[i] as int]);
    }
    let f1 = field_bytes(s.signer);
    let f2 = field_bytes(s.identity);
    let f3 = field_bytes(s.group_id);
    let c = be32(n as u32);
    let body = entries_bytes(sorted);
    let b = snapshot_bytes(s);
    assert(b == f1 + f2 + f3 + c + body);
    let p1 = f1.len() as int;
    let p2 = p1 + f2.len();
    let p3 = p2 + f3.len();
    let p4 = p3 + 4;
    assert(b.subrange(0, p1) =~= f1);
    lemma_parse_field(b, 0, s.signer);
    assert(b.subrange(p1, p2) =~= f2);
    lemma_parse_field(b, p1, s.identity);
    assert(b.subrange(p2, p3) =~= f3);
    lemma_parse_field(b, p2, s.group_id);
    assert(b.subrange(p3, p4) =~= c);
    crate::bytes::lemma_be32_round_trip(n as u32);
    assert(b.subrange(p4, b.len() as int) =~= body);
    lemma_parse_entries_bytes(b, p4, sorted);
}

} // verus!
