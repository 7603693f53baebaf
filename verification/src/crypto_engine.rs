//! The OpenMLS engine of one device: its groups, keyed by group ID, and the encrypted
//! snapshot of its state.
//!
//! The group cryptography is OpenMLS's; every OpenMLS call stands behind one of the
//! trusted functions below, which promise nothing of what OpenMLS computes, only which
//! error a failure is reported as. What the engine decides itself is proved: which
//! requests reach OpenMLS, which group a request concerns, which groups the engine
//! holds after each operation, and how its state is sealed.
use crate::bytes::push_bytes;
use crate::identity::DeviceCertificate;
use crate::mls_state::{
    check_group_id, decode_state_snapshot, decrypt_state, encode_state_snapshot, encrypt_state,
    find_member_index, key_package_count, snapshot_bytes, spec_decode_snapshot, spec_decrypt_state,
    verify_member_credential, CryptoError, GroupChange, IncomingMessage, MemberCredential, SnapshotView,
    StateSnapshot, MAX_GROUP_ID_LEN, MAX_KEY_PACKAGES,
};
use ::tls_codec::{Deserialize as TlsDeserialize, Serialize as TlsSerialize};
use openmls::prelude::{
    BasicCredential, Ciphersuite, CredentialWithKey, GroupId, KeyPackage, KeyPackageIn, LeafNodeIndex,
    LeafNodeParameters, MlsGroup, MlsGroupCreateConfig, MlsGroupJoinConfig, MlsMessageBodyIn, MlsMessageIn,
    MlsMessageOut, ProcessedMessageContent, ProtocolMessage, ProtocolVersion, QueuedProposal,
    SenderRatchetConfiguration, StagedCommit, StagedWelcome, Welcome,
};
use openmls_basic_credential::SignatureKeyPair;
use openmls_rust_crypto::OpenMlsRustCrypto;
use openmls_traits::{types::SignatureScheme, OpenMlsProvider};
use std::collections::HashMap;
use vstd::prelude::*;

verus! {

// ---------------------------------------------------------------------------
// OpenMLS's types, carried through opaque
// ---------------------------------------------------------------------------
#[verifier::external_type_specification]
#[verifier::external_body]
pub struct ExOpenMlsRustCrypto(OpenMlsRustCrypto);

#[verifier::external_type_specification]
#[verifier::external_body]
pub struct ExSignatureKeyPair(SignatureKeyPair);

#[verifier::external_type_specification]
#[verifier::external_body]
pub struct ExCredentialWithKey(CredentialWithKey);

#[verifier::external_type_specification]
#[verifier::external_body]
pub struct ExMlsGroup(MlsGroup);

#[verifier::external_type_specification]
#[verifier::external_body]
pub struct ExKeyPackage(KeyPackage);

#[verifier::external_type_specification]
#[verifier::external_body]
pub struct ExMlsMessageOut(MlsMessageOut);

#[verifier::external_type_specification]
#[verifier::external_body]
pub struct ExWelcome(Welcome);

#[verifier::external_type_specification]
#[verifier::external_body]
pub struct ExProtocolMessage(ProtocolMessage);

#[verifier::external_type_specification]
#[verifier::external_body]
pub struct ExStagedCommit(StagedCommit);

#[verifier::external_type_specification]
#[verifier::external_body]
pub struct ExQueuedProposal(QueuedProposal);

/// What processing an incoming message gave, as far as the engine tells it apart.
enum ProcessedContent {
    Application(Vec<u8>),
    Commit(Box<StagedCommit>),
    Proposal(Box<QueuedProposal>),
    Other,
}

// ---------------------------------------------------------------------------
// The calls into OpenMLS
// ---------------------------------------------------------------------------
/// Calls `OpenMlsRustCrypto::default`: a fresh provider with empty in-memory storage.
#[verifier::external_body]
fn provider_new() -> (r: OpenMlsRustCrypto) {
    OpenMlsRustCrypto::default()
}

/// Calls `SignatureKeyPair::new` for Ed25519 of openmls_basic_credential: a fresh key
/// pair; a failure is reported as `OpenMls("signature key generation")`.
#[verifier::external_body]
fn signer_new() -> (r: Result<SignatureKeyPair, CryptoError>)
    ensures
        r matches Err(e) ==> e == CryptoError::OpenMls("signature key generation"),
{
    SignatureKeyPair::new(SignatureScheme::ED25519).map_err(|_| CryptoError::OpenMls("signature key generation"))
}

/// Calls `SignatureKeyPair::store` into the provider's storage; a failure is reported
/// as `OpenMls("signature key storage")`.
#[verifier::external_body]
fn signer_store(signer: &SignatureKeyPair, provider: &OpenMlsRustCrypto) -> (r: Result<(), CryptoError>)
    ensures
        r matches Err(e) ==> e == CryptoError::OpenMls("signature key storage"),
{
    signer.store(provider.storage()).map_err(|_| CryptoError::OpenMls("signature key storage"))
}

/// Builds OpenMLS's `CredentialWithKey` from `BasicCredential::new(identity)` and the
/// signer's public key (`SignatureKeyPair::to_public_vec`).
#[verifier::external_body]
fn credential_new(identity: Vec<u8>, signer: &SignatureKeyPair) -> (r: CredentialWithKey) {
    CredentialWithKey {
        credential: BasicCredential::new(identity).into(),
        signature_key: signer.to_public_vec().into(),
    }
}

/// Calls `KeyPackage::builder().build(..)` for the ciphersuite of code `suite` and
/// serializes the key package with `tls_serialize_detached`; an unknown suite or a failed
/// build is reported as `OpenMls("key package generation")`, a failed serialization as
/// `OpenMls("key package serialization")`.
#[verifier::external_body]
fn key_package_new(
    provider: &OpenMlsRustCrypto,
    signer: &SignatureKeyPair,
    credential: &CredentialWithKey,
    suite: u16,
) -> (r: Result<Vec<u8>, CryptoError>)
    ensures
        r matches Err(e) ==> e == CryptoError::OpenMls("key package generation") || e == CryptoError::OpenMls(
            "key package serialization",
        ),
{
    let suite = Ciphersuite::try_from(suite).map_err(|_| CryptoError::OpenMls("key package generation"))?;
    let bundle = KeyPackage::builder().build(suite, provider, signer, credential.clone()).map_err(
        |_| CryptoError::OpenMls("key package generation"),
    )?;
    bundle.key_package().tls_serialize_detached().map_err(|_| CryptoError::OpenMls("key package serialization"))
}

/// Calls `MlsGroup::new_with_group_id` with a group configuration of the ciphersuite of
/// code `suite`, the ratchet-tree extension, and a sender ratchet that tolerates
/// `out_of_order` messages and skips at most `forward` generations; an unknown suite or a
/// failure is reported as `OpenMls("group creation")`.
#[verifier::external_body]
fn group_new(
    provider: &OpenMlsRustCrypto,
    signer: &SignatureKeyPair,
    credential: &CredentialWithKey,
    group_id: &[u8],
    suite: u16,
    out_of_order: u32,
    forward: u32,
) -> (r: Result<MlsGroup, CryptoError>)
    ensures
        r matches Err(e) ==> e == CryptoError::OpenMls("group creation"),
{
    let suite = Ciphersuite::try_from(suite).map_err(|_| CryptoError::OpenMls("group creation"))?;
    let config = MlsGroupCreateConfig::builder().ciphersuite(suite).use_ratchet_tree_extension(
        true,
    ).sender_ratchet_configuration(SenderRatchetConfiguration::new(out_of_order, forward)).build();
    MlsGroup::new_with_group_id(provider, signer, &config, GroupId::from_slice(group_id), credential.clone()).map_err(
        |_| CryptoError::OpenMls("group creation"),
    )
}

/// Calls `MlsMessageIn::tls_deserialize_exact` and takes the Welcome out of the message;
/// bytes that are no Welcome message are reported as `InvalidMessage`.
#[verifier::external_body]
fn welcome_parse(bytes: &[u8]) -> (r: Result<Welcome, CryptoError>)
    ensures
        r matches Err(e) ==> e == CryptoError::InvalidMessage,
{
    match MlsMessageIn::tls_deserialize_exact(bytes).map_err(|_| CryptoError::InvalidMessage)?.extract() {
        MlsMessageBodyIn::Welcome(welcome) => Ok(welcome),
        _ => Err(CryptoError::InvalidMessage),
    }
}

/// Calls `StagedWelcome::new_from_welcome` (ratchet-tree extension, a sender ratchet that
/// tolerates `out_of_order` messages and skips at most `forward` generations) and
/// `into_group`; a failure is reported as `InvalidMessage`.
#[verifier::external_body]
fn group_join(provider: &OpenMlsRustCrypto, welcome: Welcome, out_of_order: u32, forward: u32) -> (r: Result<
    MlsGroup,
    CryptoError,
>)
    ensures
        r matches Err(e) ==> e == CryptoError::InvalidMessage,
{
    let config = MlsGroupJoinConfig::builder().use_ratchet_tree_extension(true).sender_ratchet_configuration(
        SenderRatchetConfiguration::new(out_of_order, forward),
    ).build();
    StagedWelcome::new_from_welcome(provider, &config, welcome, None).map_err(|_| CryptoError::InvalidMessage)?.into_group(
        provider,
    ).map_err(|_| CryptoError::InvalidMessage)
}

/// Calls `MlsGroup::group_id`: the group's ID as bytes.
#[verifier::external_body]
fn group_id_of(group: &MlsGroup) -> (r: Vec<u8>) {
    group.group_id().as_slice().to_vec()
}

/// Calls `KeyPackageIn::tls_deserialize_exact` and `validate` for MLS 1.0; a failure is
/// reported as `InvalidMessage`.
#[verifier::external_body]
fn key_package_validate(provider: &OpenMlsRustCrypto, bytes: &[u8]) -> (r: Result<KeyPackage, CryptoError>)
    ensures
        r matches Err(e) ==> e == CryptoError::InvalidMessage,
{
    KeyPackageIn::tls_deserialize_exact(bytes).map_err(|_| CryptoError::InvalidMessage)?.validate(
        provider.crypto(),
        ProtocolVersion::Mls10,
    ).map_err(|_| CryptoError::InvalidMessage)
}

/// Calls `MlsGroup::add_members`: the commit and the Welcome; a failure is reported as
/// `OpenMls("add member commit")`.
#[verifier::external_body]
fn group_add_members(
    group: &mut MlsGroup,
    provider: &OpenMlsRustCrypto,
    signer: &SignatureKeyPair,
    packages: &[KeyPackage],
) -> (r: Result<(MlsMessageOut, MlsMessageOut), CryptoError>)
    ensures
        r matches Err(e) ==> e == CryptoError::OpenMls("add member commit"),
{
    let (commit, welcome, _) = group.add_members(provider, signer, packages).map_err(
        |_| CryptoError::OpenMls("add member commit"),
    )?;
    Ok((commit, welcome))
}

/// Calls `MlsGroup::merge_pending_commit`; a failure is reported as `OpenMls(what)`.
#[verifier::external_body]
fn group_merge_pending(group: &mut MlsGroup, provider: &OpenMlsRustCrypto, what: &'static str) -> (r: Result<
    (),
    CryptoError,
>)
    ensures
        r matches Err(e) ==> e == CryptoError::OpenMls(what),
{
    group.merge_pending_commit(provider).map_err(|_| CryptoError::OpenMls(what))
}

/// Calls `tls_serialize_detached` on an outgoing MLS message; a failure is reported as
/// `OpenMls(what)`.
#[verifier::external_body]
fn message_bytes(message: &MlsMessageOut, what: &'static str) -> (r: Result<Vec<u8>, CryptoError>)
    ensures
        r matches Err(e) ==> e == CryptoError::OpenMls(what),
{
    message.tls_serialize_detached().map_err(|_| CryptoError::OpenMls(what))
}

/// Calls `MlsGroup::propose_add_member`: the proposal; a failure is reported as
/// `OpenMls("add proposal")`.
#[verifier::external_body]
fn group_propose_add(
    group: &mut MlsGroup,
    provider: &OpenMlsRustCrypto,
    signer: &SignatureKeyPair,
    package: &KeyPackage,
) -> (r: Result<MlsMessageOut, CryptoError>)
    ensures
        r matches Err(e) ==> e == CryptoError::OpenMls("add proposal"),
{
    let (proposal, _) = group.propose_add_member(provider, signer, package).map_err(
        |_| CryptoError::OpenMls("add proposal"),
    )?;
    Ok(proposal)
}

/// Calls `MlsGroup::members`: each member's serialized credential and leaf index, in the
/// order OpenMLS lists them. Nothing is stated of the list: the group's state is opaque
/// here, and the engine records what this returns after each change to the group.
#[verifier::external_body]
fn group_members(group: &MlsGroup) -> (r: Vec<(Vec<u8>, u32)>) {
    group.members().map(|m| (m.credential.serialized_content().to_vec(), m.index.u32())).collect()
}

/// Calls `MlsGroup::remove_members` for one leaf: the commit and the Welcome, if any; a
/// failure is reported as `OpenMls("remove member commit")`.
#[verifier::external_body]
fn group_remove_member(
    group: &mut MlsGroup,
    provider: &OpenMlsRustCrypto,
    signer: &SignatureKeyPair,
    index: u32,
) -> (r: Result<(MlsMessageOut, Option<MlsMessageOut>), CryptoError>)
    ensures
        r matches Err(e) ==> e == CryptoError::OpenMls("remove member commit"),
{
    let (commit, welcome, _) = group.remove_members(provider, signer, &[LeafNodeIndex::new(index)]).map_err(
        |_| CryptoError::OpenMls("remove member commit"),
    )?;
    Ok((commit, welcome))
}

/// Calls `MlsGroup::propose_remove_member` for one leaf: the proposal; a failure is
/// reported as `OpenMls("remove proposal")`.
#[verifier::external_body]
fn group_propose_remove(
    group: &mut MlsGroup,
    provider: &OpenMlsRustCrypto,
    signer: &SignatureKeyPair,
    index: u32,
) -> (r: Result<MlsMessageOut, CryptoError>)
    ensures
        r matches Err(e) ==> e == CryptoError::OpenMls("remove proposal"),
{
    let (proposal, _) = group.propose_remove_member(provider, signer, LeafNodeIndex::new(index)).map_err(
        |_| CryptoError::OpenMls("remove proposal"),
    )?;
    Ok(proposal)
}

/// Calls `MlsGroup::create_message`: the encrypted application message; a failure is
/// reported as `OpenMls("application encryption")`.
#[verifier::external_body]
fn group_create_message(
    group: &mut MlsGroup,
    provider: &OpenMlsRustCrypto,
    signer: &SignatureKeyPair,
    plaintext: &[u8],
) -> (r: Result<MlsMessageOut, CryptoError>)
    ensures
        r matches Err(e) ==> e == CryptoError::OpenMls("application encryption"),
{
    group.create_message(provider, signer, plaintext).map_err(|_| CryptoError::OpenMls("application encryption"))
}

/// Calls `MlsMessageIn::tls_deserialize_exact` and `try_into_protocol_message`; bytes
/// that are no protocol message are reported as `InvalidMessage`.
#[verifier::external_body]
fn protocol_message_parse(bytes: &[u8]) -> (r: Result<ProtocolMessage, CryptoError>)
    ensures
        r matches Err(e) ==> e == CryptoError::InvalidMessage,
{
    MlsMessageIn::tls_deserialize_exact(bytes).map_err(|_| CryptoError::InvalidMessage)?.try_into_protocol_message().map_err(
        |_| CryptoError::InvalidMessage,
    )
}

/// Calls `MlsGroup::process_message` and `into_content`, telling the content's kinds
/// apart; a failure is reported as `InvalidMessage`.
#[verifier::external_body]
fn group_process(group: &mut MlsGroup, provider: &OpenMlsRustCrypto, message: ProtocolMessage) -> (r: Result<
    ProcessedContent,
    CryptoError,
>)
    ensures
        r matches Err(e) ==> e == CryptoError::InvalidMessage,
{
    Ok(match group.process_message(provider, message).map_err(|_| CryptoError::InvalidMessage)?.into_content() {
        ProcessedMessageContent::ApplicationMessage(value) => ProcessedContent::Application(value.into_bytes()),
        ProcessedMessageContent::StagedCommitMessage(commit) => ProcessedContent::Commit(commit),
        ProcessedMessageContent::ProposalMessage(proposal) => ProcessedContent::Proposal(proposal),
        _ => ProcessedContent::Other,
    })
}

/// Calls `MlsGroup::merge_staged_commit`; a failure is reported as
/// `OpenMls("merge incoming commit")`.
#[verifier::external_body]
fn group_merge_staged(group: &mut MlsGroup, provider: &OpenMlsRustCrypto, commit: Box<StagedCommit>) -> (r: Result<
    (),
    CryptoError,
>)
    ensures
        r matches Err(e) ==> e == CryptoError::OpenMls("merge incoming commit"),
{
    group.merge_staged_commit(provider, *commit).map_err(|_| CryptoError::OpenMls("merge incoming commit"))
}

/// Calls `MlsGroup::store_pending_proposal` on the provider's storage; a failure is
/// reported as `OpenMls("store proposal")`.
#[verifier::external_body]
fn group_store_proposal(group: &mut MlsGroup, provider: &OpenMlsRustCrypto, proposal: Box<QueuedProposal>) -> (r:
    Result<(), CryptoError>)
    ensures
        r matches Err(e) ==> e == CryptoError::OpenMls("store proposal"),
{
    group.store_pending_proposal(provider.storage(), *proposal).map_err(|_| CryptoError::OpenMls("store proposal"))
}

/// Calls `MlsGroup::self_update` with default leaf-node parameters: the commit; a failure
/// is reported as `OpenMls("self update")`.
#[verifier::external_body]
fn group_self_update(group: &mut MlsGroup, provider: &OpenMlsRustCrypto, signer: &SignatureKeyPair) -> (r: Result<
    MlsMessageOut,
    CryptoError,
>)
    ensures
        r matches Err(e) ==> e == CryptoError::OpenMls("self update"),
{
    Ok(group.self_update(provider, signer, LeafNodeParameters::default()).map_err(
        |_| CryptoError::OpenMls("self update"),
    )?.into_contents().0)
}

/// Calls `MlsGroup::epoch`: the group's epoch number. Nothing is stated of the number:
/// the group's state is opaque here, and the engine records what this returns after each
/// change to the group.
#[verifier::external_body]
fn group_epoch(group: &MlsGroup) -> (r: u64) {
    group.epoch().as_u64()
}

/// Calls `tls_serialize_detached` on the signature key pair; a failure is reported as
/// `OpenMls("signer serialization")`.
#[verifier::external_body]
fn signer_bytes(signer: &SignatureKeyPair) -> (r: Result<Vec<u8>, CryptoError>)
    ensures
        r matches Err(e) ==> e == CryptoError::OpenMls("signer serialization"),
{
    signer.tls_serialize_detached().map_err(|_| CryptoError::OpenMls("signer serialization"))
}

/// Reads the key-value pairs of the provider's in-memory storage (`values.read()`), in
/// the order the map yields them; a poisoned lock is reported as `OpenMls("storage lock")`.
/// Nothing is stated of the pairs: the storage sits behind a lock that OpenMLS rewrites on
/// every group operation, and a hash map's order differs from process to process.
#[verifier::external_body]
fn storage_entries(provider: &OpenMlsRustCrypto) -> (r: Result<Vec<(Vec<u8>, Vec<u8>)>, CryptoError>)
    ensures
        r matches Err(e) ==> e == CryptoError::OpenMls("storage lock"),
{
    let values = provider.storage().values.read().map_err(|_| CryptoError::OpenMls("storage lock"))?;
    Ok(values.iter().map(|(k, v)| (k.clone(), v.clone())).collect())
}

/// Calls `SignatureKeyPair::tls_deserialize_exact`; a failure is reported as
/// `StateAuthentication`.
#[verifier::external_body]
fn signer_from_bytes(bytes: &[u8]) -> (r: Result<SignatureKeyPair, CryptoError>)
    ensures
        r matches Err(e) ==> e == CryptoError::StateAuthentication,
{
    SignatureKeyPair::tls_deserialize_exact(bytes).map_err(|_| CryptoError::StateAuthentication)
}

/// Replaces the provider's in-memory storage (`values.write()`) by the given pairs; a
/// poisoned lock is reported as `OpenMls("storage lock")`. The change goes through a
/// shared reference to the provider, so no contract here speaks of the storage's contents.
#[verifier::external_body]
fn storage_replace(provider: &OpenMlsRustCrypto, entries: Vec<(Vec<u8>, Vec<u8>)>) -> (r: Result<(), CryptoError>)
    ensures
        r matches Err(e) ==> e == CryptoError::OpenMls("storage lock"),
{
    let values = entries.into_iter().collect::<HashMap<_, _>>();
    *provider.storage().values.write().map_err(|_| CryptoError::OpenMls("storage lock"))? = values;
    Ok(())
}

/// Calls `MlsGroup::load` from the provider's storage; a failure, or no group stored
/// under the ID, is reported as `StateAuthentication`.
#[verifier::external_body]
fn group_load(provider: &OpenMlsRustCrypto, group_id: &[u8]) -> (r: Result<MlsGroup, CryptoError>)
    ensures
        r matches Err(e) ==> e == CryptoError::StateAuthentication,
{
    MlsGroup::load(provider.storage(), &GroupId::from_slice(group_id)).map_err(|_| CryptoError::StateAuthentication)?.ok_or(
        CryptoError::StateAuthentication,
    )
}

/// Calls `MlsGroup::delete` on the provider's storage; a failure is reported as
/// `OpenMls("group deletion")`.
#[verifier::external_body]
fn group_delete(group: &mut MlsGroup, provider: &OpenMlsRustCrypto) -> (r: Result<(), CryptoError>)
    ensures
        r matches Err(e) ==> e == CryptoError::OpenMls("group deletion"),
{
    group.delete(provider.storage()).map_err(|_| CryptoError::OpenMls("group deletion"))
}

// ---------------------------------------------------------------------------
// The engine
// ---------------------------------------------------------------------------
/// The engine's ciphersuite, by its MLS code: MLS_128_DHKEMX25519_CHACHA20POLY1305_SHA256_Ed25519.
pub const CIPHERSUITE_CODE: u16 = 3;

/// How many messages of a generation already passed the sender ratchet still accepts.
pub const OUT_OF_ORDER_TOLERANCE: u32 = 100;

/// How many generations the sender ratchet skips ahead at most.
pub const MAXIMUM_FORWARD_DISTANCE: u32 = 1000;

/// A group the engine holds, with the epoch and the members that OpenMLS reported for it
/// after its last change.
struct GroupEntry {
    id: Vec<u8>,
    group: MlsGroup,
    epoch: u64,
    members: Vec<(Vec<u8>, u32)>,
}

/// A group with its epoch and members as OpenMLS reports them now.
fn entry_for(id: Vec<u8>, group: MlsGroup) -> (r: GroupEntry)
    ensures
        r.id@ == id@,
{
    let epoch = group_epoch(&group);
    let members = group_members(&group);
    GroupEntry { id, group, epoch, members }
}

/// Reads the epoch and members of a group again, after OpenMLS changed it.
fn refresh(entry: &mut GroupEntry)
    ensures
        final(entry).id == old(entry).id,
{
    entry.epoch = group_epoch(&entry.group);
    entry.members = group_members(&entry.group);
}

/// The IDs of group entries.
spec fn ids_of(g: Seq<GroupEntry>) -> Seq<Seq<u8>> {
    g.map_values(|e: GroupEntry| e.id@)
}

/// One MLS device: an isolated OpenMLS provider, the device's signature key (with the
/// bytes it was read from, for a key restored from a snapshot), its credential with the identity it carries, its groups by group ID, and the
/// key that seals its state snapshots.
pub struct CryptoEngine {
    provider: OpenMlsRustCrypto,
    signer: SignatureKeyPair,
    signer_encoding: Option<Vec<u8>>,
    credential: CredentialWithKey,
    identity: Vec<u8>,
    groups: Vec<GroupEntry>,
    state_key: [u8; 32],
}

impl CryptoEngine {
    /// The IDs of the engine's groups, in the order the engine keeps them.
    pub closed spec fn group_ids(&self) -> Seq<Seq<u8>> {
        ids_of(self.groups@)
    }

    #[verifier::type_invariant]
    spec fn group_ids_distinct(self) -> bool {
        self.well_formed()
    }

    /// The position of the first group held under `id`.
    spec fn first_index(&self, id: Seq<u8>) -> int {
        choose|i: int|
            0 <= i < self.groups@.len() && self.groups@[i].id@ == id && forall|k: int|
                0 <= k < i ==> self.groups@[k].id@ != id
    }

    proof fn lemma_first_index(&self, id: Seq<u8>, i: int)
        requires
            0 <= i < self.groups@.len(),
            self.groups@[i].id@ == id,
            forall|k: int| 0 <= k < i ==> self.groups@[k].id@ != id,
        ensures
            self.first_index(id) == i,
    {
        let j = self.first_index(id);
        if j < i {
            assert(self.groups@[j].id@ != id);
        }
        if j > i {
            assert(self.groups@[i].id@ != id);
        }
    }

    /// The epoch of the group held under `id`, as OpenMLS reported it after the group's
    /// last change.
    pub closed spec fn epoch_of(&self, id: Seq<u8>) -> u64 {
        self.groups@[self.first_index(id)].epoch
    }

    /// The members of the group held under `id` (serialized credential and leaf index),
    /// as OpenMLS reported them after the group's last change.
    pub closed spec fn members_of(&self, id: Seq<u8>) -> Seq<(Seq<u8>, u32)> {
        self.groups@[self.first_index(id)].members@.map_values(|m: (Vec<u8>, u32)| (m.0@, m.1))
    }

    /// The encoding of the engine's signature key pair where the key was restored from a
    /// snapshot: the bytes it was read from. A key the engine generated has none recorded;
    /// an export serializes it then.
    pub closed spec fn signer_encoding(&self) -> Option<Seq<u8>> {
        match self.signer_encoding {
            Some(b) => Some(b@),
            None => None,
        }
    }

    /// The identity that the engine's credential carries.
    pub closed spec fn identity(&self) -> Seq<u8> {
        self.identity@
    }

    /// Whether the engine holds a group of this ID.
    pub open spec fn holds(&self, group_id: Seq<u8>) -> bool {
        self.group_ids().contains(group_id)
    }

    /// The IDs of the engine's groups.
    pub open spec fn conversations(&self) -> Set<Seq<u8>> {
        Set::new(|id: Seq<u8>| self.holds(id))
    }

    /// No group ID occurs twice.
    pub open spec fn well_formed(&self) -> bool {
        self.group_ids().no_duplicates()
    }

    /// The key under which the engine seals its state snapshots.
    pub closed spec fn state_key(&self) -> Seq<u8> {
        self.state_key@
    }

    /// The position of a group ID among the engine's groups.
    fn position(&self, group_id: &[u8]) -> (r: Option<usize>)
        ensures
            match r {
                Some(i) => i < self.group_ids().len() && self.group_ids()[i as int] == group_id@ && forall|k: int|
                    0 <= k < i ==> self.group_ids()[k] != group_id@,
                None => !self.holds(group_id@),
            },
    {
        let mut i: usize = 0;
        while i < self.groups.len()
            invariant
                0 <= i <= self.groups@.len(),
                forall|k: int| 0 <= k < i ==> self.group_ids()[k] != group_id@,
            decreases self.groups@.len() - i,
        {
            if crate::bytes::bytes_equal(self.groups[i].id.as_slice(), group_id) {
                return Some(i);
            }
            i = i + 1;
        }
        proof {
            if self.group_ids().contains(group_id@) {
                let k = choose|k: int| 0 <= k < self.group_ids().len() && self.group_ids()[k] == group_id@;
                assert(self.group_ids()[k] == group_id@);
            }
        }
        None
    }

    /// Puts a group under its ID, replacing a group held under the same ID.
    fn put_group(&mut self, group_id: Vec<u8>, group: MlsGroup)
        ensures
            final(self).conversations() == old(self).conversations().insert(group_id@),
            final(self).state_key() == old(self).state_key(),
            final(self).signer_encoding() == old(self).signer_encoding(),
            final(self).identity() == old(self).identity(),
    {
        proof {
            use_type_invariant(&*self);
        }
        let ghost before = self.group_ids();
        let ghost id = group_id@;
        let pos = self.position(group_id.as_slice());
        let mut groups: Vec<GroupEntry> = Vec::new();
        std::mem::swap(&mut groups, &mut self.groups);
        match pos {
            Some(i) => {
                groups.set(i, entry_for(group_id, group));
                assert(ids_of(groups@) =~= before.update(i as int, id));
                assert(ids_of(groups@) =~= before);
            },
            None => {
                groups.push(entry_for(group_id, group));
                assert(ids_of(groups@) =~= before.push(id));
                assert forall|a: int, b: int|
                    0 <= a < b < ids_of(groups@).len() implies ids_of(groups@)[a] != ids_of(groups@)[b] by {
                    if b == before.len() {
                        assert(before[a] == ids_of(groups@)[a]);
                    }
                }
            },
        }
        self.groups = groups;
        assert forall|x: Seq<u8>| self.holds(x) <==> (before.contains(x) || x == id) by {
            if pos is Some {
                assert(self.group_ids() == before);
            } else {
                assert(self.group_ids() == before.push(id));
                if before.contains(x) {
                    let k = choose|k: int| 0 <= k < before.len() && before[k] == x;
                    assert(self.group_ids()[k] == x);
                }
                if x == id {
                    assert(self.group_ids()[before.len() as int] == x);
                }
                if self.holds(x) {
                    let k = choose|k: int| 0 <= k < self.group_ids().len() && self.group_ids()[k] == x;
                    if k < before.len() {
                        assert(before[k] == x);
                    }
                }
            }
        }
        assert(self.conversations() =~= old(self).conversations().insert(id));
    }

    /// Takes the group at position `i` out, to be put back with `restore`.
    fn take(&mut self, i: usize) -> (r: GroupEntry)
        requires
            i < old(self).group_ids().len(),
        ensures
            final(self).group_ids() == old(self).group_ids().remove(i as int),
            r.id@ == old(self).group_ids()[i as int],
            final(self).state_key() == old(self).state_key(),
            final(self).signer_encoding() == old(self).signer_encoding(),
            final(self).identity() == old(self).identity(),
    {
        proof {
            use_type_invariant(&*self);
        }
        let ghost before = self.group_ids();
        let mut groups: Vec<GroupEntry> = Vec::new();
        std::mem::swap(&mut groups, &mut self.groups);
        let r = groups.remove(i);
        proof {
            lemma_remove_unique(before, i as int);
            assert(ids_of(groups@) =~= before.remove(i as int));
        }
        self.groups = groups;
        r
    }

    /// Puts a group taken out at position `i` back where it was.
    fn restore(&mut self, i: usize, entry: GroupEntry, Ghost(ids): Ghost<Seq<Seq<u8>>>)
        requires
            i < ids.len(),
            ids.no_duplicates(),
            old(self).group_ids() == ids.remove(i as int),
            entry.id@ == ids[i as int],
        ensures
            final(self).group_ids() == ids,
            final(self).state_key() == old(self).state_key(),
            final(self).signer_encoding() == old(self).signer_encoding(),
            final(self).identity() == old(self).identity(),
    {
        let ghost before = self.group_ids();
        let ghost id = entry.id@;
        let mut groups: Vec<GroupEntry> = Vec::new();
        std::mem::swap(&mut groups, &mut self.groups);
        assert(ids_of(groups@).len() == groups@.len());
        groups.insert(i, entry);
        assert(ids_of(groups@) =~= before.insert(i as int, id));
        assert(ids.remove(i as int).insert(i as int, id) =~= ids);
        self.groups = groups;
    }

    /// A device's engine: a fresh provider, a fresh Ed25519 signature key stored in it, a
    /// credential carrying the member's encoded credential, no groups yet.
    pub fn initialize_crypto_store(member: MemberCredential, state_key: [u8; 32]) -> (r: Result<CryptoEngine, CryptoError>)
        ensures
            r matches Ok(e) ==> e.conversations() == Set::<Seq<u8>>::empty() && e.state_key()
                == state_key@ && e.identity() == crate::mls_state::credential_bytes(member),
            r matches Ok(e) ==> e.signer_encoding() is None,
            r matches Err(e) ==> e == CryptoError::OpenMls("signature key generation") || e == CryptoError::OpenMls(
                "signature key storage",
            ),
    {
        let provider = provider_new();
        let signer = signer_new()?;
        signer_store(&signer, &provider)?;
        let signer_encoding: Option<Vec<u8>> = None;
        let identity = member.encode();
        let credential = credential_new(identity.clone(), &signer);
        let engine = CryptoEngine {
            provider,
            signer,
            signer_encoding,
            credential,
            identity,
            groups: Vec::new(),
            state_key,
        };
        assert(engine.group_ids() =~= Seq::<Seq<u8>>::empty());
        assert(engine.conversations() =~= Set::<Seq<u8>>::empty());
        Ok(engine)
    }

    /// Key packages for others to add this device with: as many as asked, at most 100.
    pub fn generate_key_packages(&self, count: usize) -> (r: Result<Vec<Vec<u8>>, CryptoError>)
        ensures
            r matches Ok(v) ==> v@.len() == if count < MAX_KEY_PACKAGES { count } else { MAX_KEY_PACKAGES },
            count == 0 ==> (r matches Ok(v) && v@.len() == 0),
            r matches Err(e) ==> e == CryptoError::OpenMls("key package generation") || e == CryptoError::OpenMls(
                "key package serialization",
            ),
    {
        let n = key_package_count(count);
        let mut out: Vec<Vec<u8>> = Vec::new();
        let mut i: usize = 0;
        while i < n
            invariant
                0 <= i <= n,
                out@.len() == i,
                count == 0 ==> n == 0,
            decreases n - i,
        {
            let package = key_package_new(&self.provider, &self.signer, &self.credential, CIPHERSUITE_CODE)?;
            out.push(package);
            i = i + 1;
        }
        Ok(out)
    }

    /// The same as `generate_key_packages`: key packages hold only public keys.
    pub fn export_public_key_packages(&self, count: usize) -> (r: Result<Vec<Vec<u8>>, CryptoError>)
        ensures
            r matches Ok(v) ==> v@.len() == if count < MAX_KEY_PACKAGES { count } else { MAX_KEY_PACKAGES },
            count == 0 ==> (r matches Ok(v) && v@.len() == 0),
            r matches Err(e) ==> e == CryptoError::OpenMls("key package generation") || e == CryptoError::OpenMls(
                "key package serialization",
            ),
    {
        self.generate_key_packages(count)
    }

    /// A new group of this device alone, under a group ID of 1 to 255 bytes; a group held
    /// under the same ID is replaced.
    pub fn create_conversation(&mut self, group_id: &[u8]) -> (r: Result<(), CryptoError>)
        ensures
            final(self).state_key() == old(self).state_key(),
            !(0 < group_id@.len() <= MAX_GROUP_ID_LEN) <==> r == Err::<(), CryptoError>(CryptoError::InvalidMessage),
            r is Ok ==> final(self).conversations() == old(self).conversations().insert(group_id@),
            r is Err ==> final(self).conversations() == old(self).conversations(),
            r matches Err(e) ==> e == CryptoError::InvalidMessage || e == CryptoError::OpenMls("group creation"),
    {
        proof {
            use_type_invariant(&*self);
        }
        check_group_id(group_id)?;
        let group = group_new(
            &self.provider,
            &self.signer,
            &self.credential,
            group_id,
            CIPHERSUITE_CODE,
            OUT_OF_ORDER_TOLERANCE,
            MAXIMUM_FORWARD_DISTANCE,
        )?;
        let mut key: Vec<u8> = Vec::new();
        push_bytes(&mut key, group_id);
        assert(key@ =~= group_id@);
        self.put_group(key, group);
        Ok(())
    }

    /// Joins the group that a Welcome message invites this device to, and names it.
    pub fn join_conversation_from_welcome(&mut self, welcome: &[u8]) -> (r: Result<Vec<u8>, CryptoError>)
        ensures
            final(self).state_key() == old(self).state_key(),
            r matches Ok(id) ==> final(self).conversations() == old(self).conversations().insert(id@),
            r is Err ==> final(self).conversations() == old(self).conversations(),
            r matches Err(e) ==> e == CryptoError::InvalidMessage,
    {
        proof {
            use_type_invariant(&*self);
        }
        let message = welcome_parse(welcome)?;
        let group = group_join(&self.provider, message, OUT_OF_ORDER_TOLERANCE, MAXIMUM_FORWARD_DISTANCE)?;
        let id = group_id_of(&group);
        let key = id.clone();
        self.put_group(key, group);
        Ok(id)
    }

    /// Adds members to a group by their key packages, all checked first: the commit,
    /// merged at once, and the Welcome for the new members.
    pub fn commit_add_members(&mut self, group_id: &[u8], key_packages: &[Vec<u8>]) -> (r: Result<
        GroupChange,
        CryptoError,
    >)
        ensures
            final(self).group_ids() == old(self).group_ids(),
            final(self).state_key() == old(self).state_key(),
            !old(self).holds(group_id@) ==> r == Err::<GroupChange, CryptoError>(CryptoError::ConversationNotFound)
                || r == Err::<GroupChange, CryptoError>(CryptoError::InvalidMessage),
            !old(self).holds(group_id@) && key_packages@.len() == 0 ==> r == Err::<GroupChange, CryptoError>(
                CryptoError::ConversationNotFound,
            ),
            r == Err::<GroupChange, CryptoError>(CryptoError::ConversationNotFound) ==> !old(self).holds(group_id@),
            r matches Ok(change) ==> change.welcome is Some,
            r matches Err(e) ==> e == CryptoError::InvalidMessage || e == CryptoError::ConversationNotFound || e
                == CryptoError::OpenMls("add member commit") || e == CryptoError::OpenMls("merge add commit") || e
                == CryptoError::OpenMls("commit serialization") || e == CryptoError::OpenMls("welcome serialization"),
    {
        proof {
            use_type_invariant(&*self);
        }
        let mut packages: Vec<KeyPackage> = Vec::new();
        let mut k: usize = 0;
        while k < key_packages.len()
            invariant
                0 <= k <= key_packages@.len(),
            decreases key_packages@.len() - k,
        {
            let package = key_package_validate(&self.provider, key_packages[k].as_slice())?;
            packages.push(package);
            k = k + 1;
        }
        let i = match self.position(group_id) {
            Some(i) => i,
            None => return Err(CryptoError::ConversationNotFound),
        };
        let ghost ids = self.group_ids();
        let mut entry = self.take(i);
        let result = add_to(&mut entry.group, &self.provider, &self.signer, packages.as_slice());
        refresh(&mut entry);
        self.restore(i, entry, Ghost(ids));
        result
    }

    /// Proposes adding a member by its key package, checked first.
    pub fn propose_add_members(&mut self, group_id: &[u8], key_package: &[u8]) -> (r: Result<Vec<u8>, CryptoError>)
        ensures
            final(self).group_ids() == old(self).group_ids(),
            final(self).state_key() == old(self).state_key(),
            !old(self).holds(group_id@) ==> r == Err::<Vec<u8>, CryptoError>(CryptoError::ConversationNotFound) || r
                == Err::<Vec<u8>, CryptoError>(CryptoError::InvalidMessage),
            r == Err::<Vec<u8>, CryptoError>(CryptoError::ConversationNotFound) ==> !old(self).holds(group_id@),
            r matches Err(e) ==> e == CryptoError::InvalidMessage || e == CryptoError::ConversationNotFound || e
                == CryptoError::OpenMls("add proposal") || e == CryptoError::OpenMls("proposal serialization"),
    {
        proof {
            use_type_invariant(&*self);
        }
        let package = key_package_validate(&self.provider, key_package)?;
        let i = match self.position(group_id) {
            Some(i) => i,
            None => return Err(CryptoError::ConversationNotFound),
        };
        let ghost ids = self.group_ids();
        let mut entry = self.take(i);
        let result = match group_propose_add(&mut entry.group, &self.provider, &self.signer, &package) {
            Ok(proposal) => message_bytes(&proposal, "proposal serialization"),
            Err(e) => Err(e),
        };
        refresh(&mut entry);
        self.restore(i, entry, Ghost(ids));
        result
    }

    /// Removes the member whose credential is `member`: the commit, merged at once, and a
    /// Welcome if OpenMLS made one.
    pub fn commit_remove_members(&mut self, group_id: &[u8], member: &MemberCredential) -> (r: Result<
        GroupChange,
        CryptoError,
    >)
        ensures
            final(self).group_ids() == old(self).group_ids(),
            final(self).state_key() == old(self).state_key(),
            !old(self).holds(group_id@) <==> r == Err::<GroupChange, CryptoError>(CryptoError::ConversationNotFound),
            r matches Err(e) ==> e == CryptoError::ConversationNotFound || e == CryptoError::InvalidCredential || e
                == CryptoError::OpenMls("remove member commit") || e == CryptoError::OpenMls("merge remove commit")
                || e == CryptoError::OpenMls("commit serialization") || e == CryptoError::OpenMls(
                "welcome serialization",
            ),
    {
        proof {
            use_type_invariant(&*self);
        }
        let i = match self.position(group_id) {
            Some(i) => i,
            None => return Err(CryptoError::ConversationNotFound),
        };
        let ghost ids = self.group_ids();
        let mut entry = self.take(i);
        let result = remove_from(&mut entry.group, &self.provider, &self.signer, member);
        refresh(&mut entry);
        self.restore(i, entry, Ghost(ids));
        result
    }

    /// Proposes removing the member whose credential is `member`.
    pub fn propose_remove_members(&mut self, group_id: &[u8], member: &MemberCredential) -> (r: Result<
        Vec<u8>,
        CryptoError,
    >)
        ensures
            final(self).group_ids() == old(self).group_ids(),
            final(self).state_key() == old(self).state_key(),
            !old(self).holds(group_id@) <==> r == Err::<Vec<u8>, CryptoError>(CryptoError::ConversationNotFound),
            r matches Err(e) ==> e == CryptoError::ConversationNotFound || e == CryptoError::InvalidCredential || e
                == CryptoError::OpenMls("remove proposal") || e == CryptoError::OpenMls("proposal serialization"),
    {
        proof {
            use_type_invariant(&*self);
        }
        let i = match self.position(group_id) {
            Some(i) => i,
            None => return Err(CryptoError::ConversationNotFound),
        };
        let ghost ids = self.group_ids();
        let mut entry = self.take(i);
        let result = propose_removal(&mut entry.group, &self.provider, &self.signer, member);
        refresh(&mut entry);
        self.restore(i, entry, Ghost(ids));
        result
    }

    /// Encrypts an application message for a group.
    pub fn encrypt_application_message(&mut self, group_id: &[u8], plaintext: &[u8]) -> (r: Result<
        Vec<u8>,
        CryptoError,
    >)
        ensures
            final(self).group_ids() == old(self).group_ids(),
            final(self).state_key() == old(self).state_key(),
            !old(self).holds(group_id@) <==> r == Err::<Vec<u8>, CryptoError>(CryptoError::ConversationNotFound),
            r matches Err(e) ==> e == CryptoError::ConversationNotFound || e == CryptoError::OpenMls(
                "application encryption",
            ) || e == CryptoError::OpenMls("message serialization"),
    {
        proof {
            use_type_invariant(&*self);
        }
        let i = match self.position(group_id) {
            Some(i) => i,
            None => return Err(CryptoError::ConversationNotFound),
        };
        let ghost ids = self.group_ids();
        let mut entry = self.take(i);
        let result = match group_create_message(&mut entry.group, &self.provider, &self.signer, plaintext) {
            Ok(message) => message_bytes(&message, "message serialization"),
            Err(e) => Err(e),
        };
        refresh(&mut entry);
        self.restore(i, entry, Ghost(ids));
        result
    }

    /// Processes a message of a group, read first: an application message gives its
    /// plaintext, a commit is merged, a proposal is queued; any other content is refused.
    pub fn process_incoming_message(&mut self, group_id: &[u8], ciphertext: &[u8]) -> (r: Result<
        IncomingMessage,
        CryptoError,
    >)
        ensures
            final(self).group_ids() == old(self).group_ids(),
            final(self).state_key() == old(self).state_key(),
            !old(self).holds(group_id@) ==> r == Err::<IncomingMessage, CryptoError>(CryptoError::ConversationNotFound)
                || r == Err::<IncomingMessage, CryptoError>(CryptoError::InvalidMessage),
            r == Err::<IncomingMessage, CryptoError>(CryptoError::ConversationNotFound) ==> !old(self).holds(group_id@),
            r matches Err(e) ==> e == CryptoError::InvalidMessage || e == CryptoError::ConversationNotFound || e
                == CryptoError::OpenMls("merge incoming commit") || e == CryptoError::OpenMls("store proposal"),
    {
        proof {
            use_type_invariant(&*self);
        }
        let message = protocol_message_parse(ciphertext)?;
        let i = match self.position(group_id) {
            Some(i) => i,
            None => return Err(CryptoError::ConversationNotFound),
        };
        let ghost ids = self.group_ids();
        let mut entry = self.take(i);
        let result = process_in(&mut entry.group, &self.provider, message);
        refresh(&mut entry);
        self.restore(i, entry, Ghost(ids));
        result
    }

    /// Updates this device's leaf: the commit, merged at once.
    pub fn self_update(&mut self, group_id: &[u8]) -> (r: Result<Vec<u8>, CryptoError>)
        ensures
            final(self).group_ids() == old(self).group_ids(),
            final(self).state_key() == old(self).state_key(),
            !old(self).holds(group_id@) <==> r == Err::<Vec<u8>, CryptoError>(CryptoError::ConversationNotFound),
            r matches Err(e) ==> e == CryptoError::ConversationNotFound || e == CryptoError::OpenMls("self update")
                || e == CryptoError::OpenMls("merge self update") || e == CryptoError::OpenMls(
                "self update serialization",
            ),
    {
        proof {
            use_type_invariant(&*self);
        }
        let i = match self.position(group_id) {
            Some(i) => i,
            None => return Err(CryptoError::ConversationNotFound),
        };
        let ghost ids = self.group_ids();
        let mut entry = self.take(i);
        let result = update_own_leaf(&mut entry.group, &self.provider, &self.signer);
        refresh(&mut entry);
        self.restore(i, entry, Ghost(ids));
        result
    }

    /// The epoch of a group.
    pub fn get_conversation_epoch(&self, group_id: &[u8]) -> (r: Result<u64, CryptoError>)
        ensures
            r is Ok <==> self.holds(group_id@),
            r is Err ==> r == Err::<u64, CryptoError>(CryptoError::ConversationNotFound),
            r matches Ok(e) ==> e == self.epoch_of(group_id@),
    {
        match self.position(group_id) {
            Some(i) => {
                proof {
                    self.lemma_position_first(group_id@, i as int);
                }
                Ok(self.groups[i].epoch)
            },
            None => Err(CryptoError::ConversationNotFound),
        }
    }

    /// The number of members of a group.
    pub fn member_count(&self, group_id: &[u8]) -> (r: Result<usize, CryptoError>)
        ensures
            r is Ok <==> self.holds(group_id@),
            r is Err ==> r == Err::<usize, CryptoError>(CryptoError::ConversationNotFound),
            r matches Ok(n) ==> n == self.members_of(group_id@).len(),
    {
        match self.position(group_id) {
            Some(i) => {
                proof {
                    self.lemma_position_first(group_id@, i as int);
                }
                Ok(self.groups[i].members.len())
            },
            None => Err(CryptoError::ConversationNotFound),
        }
    }

    proof fn lemma_position_first(&self, id: Seq<u8>, i: int)
        requires
            0 <= i < self.group_ids().len(),
            self.group_ids()[i] == id,
            forall|k: int| 0 <= k < i ==> self.group_ids()[k] != id,
        ensures
            self.first_index(id) == i,
    {
        assert forall|k: int| 0 <= k < i implies self.groups@[k].id@ != id by {
            assert(self.group_ids()[k] == self.groups@[k].id@);
        }
        assert(self.group_ids()[i] == self.groups@[i].id@);
        self.lemma_first_index(id, i);
    }

    /// Reads a member credential and accepts it only if it is genuine for the root key and
    /// the device certificate.
    pub fn verify_member_credential(&self, value: &[u8], root_public_key: &[u8; 32], certificate: &DeviceCertificate) -> (r:
        Result<MemberCredential, CryptoError>)
        ensures
            r is Ok <==> (value@.len() == crate::mls_state::MEMBER_CREDENTIAL_LEN && value@[0] == 1 && exists|
                c: MemberCredential,
            |
                crate::mls_state::credential_bytes(c) == value@ && crate::mls_state::credential_genuine(
                    c,
                    root_public_key@,
                    *certificate,
                )),
            r matches Ok(c) ==> crate::mls_state::credential_bytes(c) == value@ && crate::mls_state::credential_genuine(
                c,
                root_public_key@,
                *certificate,
            ),
            r is Err ==> r == Err::<MemberCredential, CryptoError>(CryptoError::InvalidCredential),
    {
        verify_member_credential(value, root_public_key, certificate)
    }

    /// The engine's state for one group, sealed under the state key: the signer's
    /// encoding, the credential's identity, the group ID and every storage entry, in key
    /// order. Raw OpenMLS state never leaves the engine unsealed.
    pub fn export_conversation_state(&self, group_id: &[u8]) -> (r: Result<Vec<u8>, CryptoError>)
        ensures
            !self.holds(group_id@) <==> r == Err::<Vec<u8>, CryptoError>(CryptoError::ConversationNotFound),
            r matches Ok(b) ==> exists|s: SnapshotView|
                s.group_id == group_id@ && (self.signer_encoding() matches Some(e) ==> s.signer == e) && s.identity
                    == self.identity() && spec_decrypt_state(self.state_key(), b@) == Ok::<Seq<u8>, CryptoError>(
                    #[trigger] snapshot_bytes(s),
                ),
            r == Err::<Vec<u8>, CryptoError>(CryptoError::OpenMls("signer serialization")) ==> self.signer_encoding() is None,
            r matches Err(e) ==> e == CryptoError::ConversationNotFound || e == CryptoError::OpenMls("storage lock")
                || e == CryptoError::OpenMls("signer serialization") || e == CryptoError::StateAuthentication,
    {
        if self.position(group_id).is_none() {
            return Err(CryptoError::ConversationNotFound);
        }
        let mut signer: Vec<u8> = Vec::new();
        match &self.signer_encoding {
            Some(b) => push_bytes(&mut signer, b.as_slice()),
            None => {
                let b = signer_bytes(&self.signer)?;
                push_bytes(&mut signer, b.as_slice());
            },
        }
        let entries = storage_entries(&self.provider)?;
        let mut identity: Vec<u8> = Vec::new();
        push_bytes(&mut identity, self.identity.as_slice());
        let mut id: Vec<u8> = Vec::new();
        push_bytes(&mut id, group_id);
        let snapshot = StateSnapshot { signer, identity, group_id: id, entries };
        let plain = encode_state_snapshot(&snapshot);
        let sealed = encrypt_state(&self.state_key, plain.as_slice());
        proof {
            if sealed is Ok {
                assert(snapshot@.group_id =~= group_id@);
                if let Some(e) = self.signer_encoding() {
                    assert(snapshot@.signer =~= e);
                }
                assert(snapshot@.identity =~= self.identity());
                assert(snapshot_bytes(snapshot@) == plain@);
            }
        }
        sealed
    }

    /// Restores a group from a snapshot sealed under the engine's state key: the storage,
    /// the signer and the credential become the snapshot's, and the group is loaded and
    /// held under its ID, which is returned.
    pub fn import_conversation_state(&mut self, encrypted: &[u8]) -> (r: Result<Vec<u8>, CryptoError>)
        ensures
            final(self).state_key() == old(self).state_key(),
            match spec_decrypt_state(old(self).state_key(), encrypted@) {
                Err(e) => r == Err::<Vec<u8>, CryptoError>(e) && final(self).conversations() == old(self).conversations(),
                Ok(p) => match spec_decode_snapshot(p) {
                    Err(e) => r == Err::<Vec<u8>, CryptoError>(e) && final(self).conversations() == old(self).conversations(),
                    Ok(s) => (r matches Ok(id) ==> id@ == s.group_id && final(self).conversations() == old(self).conversations().insert(s.group_id) && final(self).signer_encoding() == Some(s.signer) && final(self).identity() == s.identity) && (r matches Err(e) ==> (e
                        == CryptoError::StateAuthentication || e == CryptoError::OpenMls("storage lock")) && final(self).conversations() == old(self).conversations()),
                },
            },
    {
        proof {
            use_type_invariant(&*self);
        }
        let plain = decrypt_state(&self.state_key, encrypted)?;
        let snapshot = decode_state_snapshot(plain.as_slice())?;
        let signer = signer_from_bytes(snapshot.signer.as_slice())?;
        let StateSnapshot { signer: signer_encoding, identity, group_id, entries } = snapshot;
        storage_replace(&self.provider, entries)?;
        self.signer = signer;
        self.signer_encoding = Some(signer_encoding);
        self.credential = credential_new(identity.clone(), &self.signer);
        self.identity = identity;
        let group = group_load(&self.provider, group_id.as_slice())?;
        let key = group_id.clone();
        self.put_group(key, group);
        Ok(group_id)
    }

    /// Forgets a group and deletes its state from the storage.
    pub fn destroy_local_conversation_state(&mut self, group_id: &[u8]) -> (r: Result<(), CryptoError>)
        ensures
            final(self).state_key() == old(self).state_key(),
            !old(self).holds(group_id@) ==> r == Err::<(), CryptoError>(CryptoError::ConversationNotFound)
                && final(self).conversations() == old(self).conversations(),
            old(self).holds(group_id@) ==> final(self).conversations() == old(self).conversations().remove(group_id@)
                && (r is Ok || r == Err::<(), CryptoError>(CryptoError::OpenMls("group deletion"))),
    {
        proof {
            use_type_invariant(&*self);
        }
        let i = match self.position(group_id) {
            Some(i) => i,
            None => return Err(CryptoError::ConversationNotFound),
        };
        let ghost ids = self.group_ids();
        let mut entry = self.take(i);
        proof {
            lemma_remove_unique(ids, i as int);
            assert(self.conversations() =~= old(self).conversations().remove(group_id@));
        }
        group_delete(&mut entry.group, &self.provider)
    }
}

/// A snapshot sealed as `export_conversation_state` seals it opens, under the same key, to
/// a snapshot that reads back with the exported group's ID, signer and identity: an engine
/// with that key that imports it fails only where OpenMLS does, and otherwise holds that
/// group again.
pub proof fn lemma_exported_state_restores(key: Seq<u8>, blob: Seq<u8>, s: SnapshotView)
    requires
        spec_decrypt_state(key, blob) == Ok::<Seq<u8>, CryptoError>(snapshot_bytes(s)),
        crate::mls_state::snapshot_fits(s),
    ensures
        spec_decode_snapshot(snapshot_bytes(s)) matches Ok(t) && t.group_id == s.group_id && t.signer == s.signer
            && t.identity == s.identity,
{
    crate::mls_state::lemma_snapshot_round_trip(s);
}

/// Removing the entry at `i` from IDs without duplicates keeps them without duplicates
/// and removes exactly that ID.
proof fn lemma_remove_unique(ids: Seq<Seq<u8>>, i: int)
    requires
        ids.no_duplicates(),
        0 <= i < ids.len(),
    ensures
        ids.remove(i).no_duplicates(),
        forall|x: Seq<u8>| ids.remove(i).contains(x) <==> (ids.contains(x) && x != ids[i]),
{
    let r = ids.remove(i);
    assert forall|a: int, b: int| 0 <= a < b < r.len() implies r[a] != r[b] by {
        let a0 = if a < i { a } else { a + 1 };
        let b0 = if b < i { b } else { b + 1 };
        assert(r[a] == ids[a0] && r[b] == ids[b0]);
    }
    assert forall|x: Seq<u8>| r.contains(x) <==> (ids.contains(x) && x != ids[i]) by {
        if r.contains(x) {
            let k = choose|k: int| 0 <= k < r.len() && r[k] == x;
            let k0 = if k < i { k } else { k + 1 };
            assert(ids[k0] == x);
        }
        if ids.contains(x) && x != ids[i] {
            let k = choose|k: int| 0 <= k < ids.len() && ids[k] == x;
            if k < i {
                assert(r[k] == x);
            } else {
                assert(r[k - 1] == x);
            }
        }
    }
}

/// Commits adding members, merges the commit, and serializes commit and Welcome.
fn add_to(group: &mut MlsGroup, provider: &OpenMlsRustCrypto, signer: &SignatureKeyPair, packages: &[KeyPackage]) -> (r:
    Result<GroupChange, CryptoError>)
    ensures
        r matches Ok(change) ==> change.welcome is Some,
        r matches Err(e) ==> e == CryptoError::OpenMls("add member commit") || e == CryptoError::OpenMls(
            "merge add commit",
        ) || e == CryptoError::OpenMls("commit serialization") || e == CryptoError::OpenMls("welcome serialization"),
{
    let (commit, welcome) = group_add_members(group, provider, signer, packages)?;
    group_merge_pending(group, provider, "merge add commit")?;
    let commit = message_bytes(&commit, "commit serialization")?;
    let welcome = message_bytes(&welcome, "welcome serialization")?;
    Ok(GroupChange { commit, welcome: Some(welcome) })
}

/// Commits removing a member found by credential, merges the commit, and serializes it.
fn remove_from(group: &mut MlsGroup, provider: &OpenMlsRustCrypto, signer: &SignatureKeyPair, member: &MemberCredential) -> (r:
    Result<GroupChange, CryptoError>)
    ensures
        r matches Err(e) ==> e == CryptoError::InvalidCredential || e == CryptoError::OpenMls("remove member commit")
            || e == CryptoError::OpenMls("merge remove commit") || e == CryptoError::OpenMls("commit serialization")
            || e == CryptoError::OpenMls("welcome serialization"),
{
    let wanted = member.encode();
    let members = group_members(group);
    let index = find_member_index(&members, wanted.as_slice())?;
    let (commit, welcome) = group_remove_member(group, provider, signer, index)?;
    group_merge_pending(group, provider, "merge remove commit")?;
    let commit = message_bytes(&commit, "commit serialization")?;
    let welcome = match welcome {
        Some(w) => Some(message_bytes(&w, "welcome serialization")?),
        None => None,
    };
    Ok(GroupChange { commit, welcome })
}

/// Proposes removing a member found by credential, and serializes the proposal.
fn propose_removal(
    group: &mut MlsGroup,
    provider: &OpenMlsRustCrypto,
    signer: &SignatureKeyPair,
    member: &MemberCredential,
) -> (r: Result<Vec<u8>, CryptoError>)
    ensures
        r matches Err(e) ==> e == CryptoError::InvalidCredential || e == CryptoError::OpenMls("remove proposal") || e
            == CryptoError::OpenMls("proposal serialization"),
{
    let wanted = member.encode();
    let members = group_members(group);
    let index = find_member_index(&members, wanted.as_slice())?;
    let proposal = group_propose_remove(group, provider, signer, index)?;
    message_bytes(&proposal, "proposal serialization")
}

/// Processes a protocol message and acts on its content.
fn process_in(group: &mut MlsGroup, provider: &OpenMlsRustCrypto, message: ProtocolMessage) -> (r: Result<
    IncomingMessage,
    CryptoError,
>)
    ensures
        r matches Err(e) ==> e == CryptoError::InvalidMessage || e == CryptoError::OpenMls("merge incoming commit")
            || e == CryptoError::OpenMls("store proposal"),
{
    let content = group_process(group, provider, message)?;
    incoming_from(group, provider, content)
}

/// Acts on what processing a message gave: an application message gives its plaintext,
/// a commit is merged, a proposal is queued, any other content is refused.
fn incoming_from(group: &mut MlsGroup, provider: &OpenMlsRustCrypto, content: ProcessedContent) -> (r: Result<
    IncomingMessage,
    CryptoError,
>)
    ensures
        match content {
            ProcessedContent::Application(v) => r == Ok::<IncomingMessage, CryptoError>(
                IncomingMessage::Application(v),
            ),
            ProcessedContent::Commit(_) => r == Ok::<IncomingMessage, CryptoError>(IncomingMessage::CommitApplied)
                || r == Err::<IncomingMessage, CryptoError>(CryptoError::OpenMls("merge incoming commit")),
            ProcessedContent::Proposal(_) => r == Ok::<IncomingMessage, CryptoError>(IncomingMessage::ProposalQueued)
                || r == Err::<IncomingMessage, CryptoError>(CryptoError::OpenMls("store proposal")),
            ProcessedContent::Other => r == Err::<IncomingMessage, CryptoError>(CryptoError::InvalidMessage),
        },
{
    match content {
        ProcessedContent::Application(value) => Ok(IncomingMessage::Application(value)),
        ProcessedContent::Commit(commit) => {
            group_merge_staged(group, provider, commit)?;
            Ok(IncomingMessage::CommitApplied)
        },
        ProcessedContent::Proposal(proposal) => {
            group_store_proposal(group, provider, proposal)?;
            Ok(IncomingMessage::ProposalQueued)
        },
        ProcessedContent::Other => Err(CryptoError::InvalidMessage),
    }
}

/// Commits an update of the own leaf, merges it, and serializes the commit.
fn update_own_leaf(group: &mut MlsGroup, provider: &OpenMlsRustCrypto, signer: &SignatureKeyPair) -> (r: Result<
    Vec<u8>,
    CryptoError,
>)
    ensures
        r matches Err(e) ==> e == CryptoError::OpenMls("self update") || e == CryptoError::OpenMls(
            "merge self update",
        ) || e == CryptoError::OpenMls("self update serialization"),
{
    let update = group_self_update(group, provider, signer)?;
    group_merge_pending(group, provider, "merge self update")?;
    message_bytes(&update, "self update serialization")
}


} // verus!
