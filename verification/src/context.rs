//! Canonical digests for credential, presentation, and request-binding data.

use vstd::prelude::*;
use vstd::string::StringSliceAdditionalSpecFns;
use vstd::bytes::spec_u64_to_le_bytes;
use crate::digest::{component_views, framed_components, framed_message, hash_framed, sha3_shake256_32};
use crate::markers::Error;

verus! {

/// Domain label of credential contexts.
pub open spec fn credential_context_domain() -> Seq<u8> {
    "VOLE-ARC/credential-context/v1".spec_bytes()
}

/// Domain label of unscoped presentation contexts.
pub open spec fn presentation_context_domain() -> Seq<u8> {
    "VOLE-ARC/presentation-context/v1".spec_bytes()
}

/// Domain label of scoped presentation contexts.
pub open spec fn presentation_scope_domain() -> Seq<u8> {
    "VOLE-ARC/scoped-presentation/v1".spec_bytes()
}

/// Domain label of presentation bindings.
pub open spec fn presentation_binding_domain() -> Seq<u8> {
    "VOLE-ARC/presentation-binding/v1".spec_bytes()
}

/// The components hashed by [`PresentationContext::scoped`]: relying
/// party, purpose, an epoch-presence byte, and the epoch (empty if absent).
pub open spec fn scoped_components(
    relying_party: Seq<u8>,
    purpose: Seq<u8>,
    epoch: Option<Seq<u8>>,
) -> Seq<Seq<u8>> {
    match epoch {
        Some(e) => seq![relying_party, purpose, seq![1u8], e],
        None => seq![relying_party, purpose, seq![0u8], Seq::<u8>::empty()],
    }
}

/// The digest of a single framed application component.
pub open spec fn single_digest(domain: Seq<u8>, data: Seq<u8>) -> Seq<u8> {
    sha3_shake256_32(framed_message(domain, seq![data]))
}

fn hash_one(domain: &[u8], data: &[u8]) -> (digest: [u8; 32])
    ensures
        digest@ == single_digest(domain@, data@),
{
    let parts = [data];
    let components = vstd::array::array_as_slice(&parts);
    assert(component_views(components@) =~= seq![data@]);
    hash_framed(domain, components)
}

/// Public information bound into credential issuance.
///
/// This can identify an attestation class or credential epoch. It is
/// independent of [`PresentationContext`], so a long-lived credential may be
/// used across many relying-party and epoch buckets when policy permits.
#[derive(Clone, Copy, Debug, PartialEq, Eq, PartialOrd, Ord, Hash)]
pub struct CredentialContext(pub(crate) [u8; 32]);

impl CredentialContext {
    /// The 32-byte context digest.
    pub closed spec fn bytes(self) -> Seq<u8> {
        self.0@
    }

    /// Hash arbitrary application data into a canonical credential context.
    pub fn new(application_data: &[u8]) -> (context: Self)
        ensures
            context.bytes() == single_digest(credential_context_domain(), application_data@),
    {
        let domain = "VOLE-ARC/credential-context/v1".as_bytes();
        CredentialContext(hash_one(domain, application_data))
    }

    /// The canonical 32-byte context digest.
    pub fn digest(self) -> (digest: [u8; 32])
        ensures
            digest@ == self.bytes(),
    {
        self.0
    }

    /// Rebuild a context from its digest, as decoders do.
    pub(crate) fn from_digest(digest: [u8; 32]) -> (context: Self)
        ensures
            context.bytes() == digest@,
    {
        CredentialContext(digest)
    }

    /// A context is determined by its digest.
    pub proof fn lemma_bytes_determine(a: Self, b: Self)
        requires
            a.bytes() == b.bytes(),
        ensures
            a == b,
    {
        assert(a.0 =~= b.0);
    }

    /// A context digest is 32 bytes long.
    pub proof fn lemma_bytes_len(self)
        ensures
            self.bytes().len() == 32,
    {
    }
}

impl Default for CredentialContext {
    fn default() -> (context: Self)
        ensures
            context.bytes() == single_digest(credential_context_domain(), Seq::<u8>::empty()),
    {
        let empty: [u8; 0] = [];
        let data = vstd::array::array_as_slice(&empty);
        assert(data@ =~= Seq::<u8>::empty());
        Self::new(data)
    }
}

/// One public rate-limit bucket.
///
/// Servers must derive this value from trusted policy. A client-selected
/// context lets the client create a fresh bucket for every request.
#[derive(Clone, Copy, Debug, PartialEq, Eq, PartialOrd, Ord, Hash)]
pub struct PresentationContext(pub(crate) [u8; 32]);

impl PresentationContext {
    /// The 32-byte bucket digest.
    pub closed spec fn bytes(self) -> Seq<u8> {
        self.0@
    }

    /// Hash an already-canonical application context into a bucket identifier.
    pub fn new(application_data: &[u8]) -> (context: Self)
        ensures
            context.bytes() == single_digest(presentation_context_domain(), application_data@),
    {
        let domain = "VOLE-ARC/presentation-context/v1".as_bytes();
        PresentationContext(hash_one(domain, application_data))
    }

    /// Construct a bucket scoped by relying party, purpose, and optional
    /// epoch.
    ///
    /// Each component is length-framed. Changing any component creates an
    /// independent rate-limit bucket.
    pub fn scoped(relying_party: &[u8], purpose: &[u8], epoch: Option<&[u8]>) -> (context: Self)
        ensures
            context.bytes() == sha3_shake256_32(
                framed_message(
                    presentation_scope_domain(),
                    scoped_components(
                        relying_party@,
                        purpose@,
                        match epoch {
                            Some(e) => Some(e@),
                            None => None,
                        },
                    ),
                ),
            ),
    {
        let present = [1u8];
        let absent = [0u8];
        let empty: [u8; 0] = [];
        let (presence, epoch_bytes) = match epoch {
            Some(e) => (vstd::array::array_as_slice(&present), e),
            None => (vstd::array::array_as_slice(&absent), vstd::array::array_as_slice(&empty)),
        };
        let parts = [relying_party, purpose, presence, epoch_bytes];
        let components = vstd::array::array_as_slice(&parts);
        let ghost epoch_view = match epoch {
            Some(e) => Some(e@),
            None => None::<Seq<u8>>,
        };
        assert(presence@ =~= (if epoch is Some { seq![1u8] } else { seq![0u8] }));
        assert(epoch is None ==> epoch_bytes@ =~= Seq::<u8>::empty());
        assert(component_views(components@) =~= scoped_components(
            relying_party@,
            purpose@,
            epoch_view,
        ));
        let domain = "VOLE-ARC/scoped-presentation/v1".as_bytes();
        PresentationContext(hash_framed(domain, components))
    }

    /// The canonical 32-byte bucket digest.
    pub fn digest(self) -> (digest: [u8; 32])
        ensures
            digest@ == self.bytes(),
    {
        self.0
    }

    /// Rebuild a bucket identifier from its digest, as decoders do.
    pub(crate) fn from_digest(digest: [u8; 32]) -> (context: Self)
        ensures
            context.bytes() == digest@,
    {
        PresentationContext(digest)
    }

    /// A bucket identifier is determined by its digest.
    pub proof fn lemma_bytes_determine(a: Self, b: Self)
        requires
            a.bytes() == b.bytes(),
        ensures
            a == b,
    {
        assert(a.0 =~= b.0);
    }

    /// A bucket digest is 32 bytes long.
    pub proof fn lemma_bytes_len(self)
        ensures
            self.bytes().len() == 32,
    {
    }
}

/// Public per-request data bound into a presentation proof without changing
/// its rate-limit bucket.
///
/// Use this for a Privacy Pass challenge digest, HTTP request digest, or other
/// anti-replay binding. It is excluded from tag derivation so a new request
/// does not reset the scoped counter.
#[derive(Clone, Copy, Debug, PartialEq, Eq, Hash)]
pub struct PresentationBinding(pub(crate) [u8; 32]);

impl PresentationBinding {
    /// The 32-byte binding digest.
    pub closed spec fn bytes(self) -> Seq<u8> {
        self.0@
    }

    /// Hash arbitrary request data into a canonical binding.
    pub fn new(request_data: &[u8]) -> (binding: Self)
        ensures
            binding.bytes() == single_digest(presentation_binding_domain(), request_data@),
    {
        let domain = "VOLE-ARC/presentation-binding/v1".as_bytes();
        PresentationBinding(hash_one(domain, request_data))
    }

    /// The canonical 32-byte binding digest.
    pub fn digest(self) -> (digest: [u8; 32])
        ensures
            digest@ == self.bytes(),
    {
        self.0
    }

    /// A binding is determined by its digest.
    pub proof fn lemma_bytes_determine(a: Self, b: Self)
        requires
            a.bytes() == b.bytes(),
        ensures
            a == b,
    {
        assert(a.0 =~= b.0);
    }

    /// A binding digest is 32 bytes long.
    pub proof fn lemma_bytes_len(self)
        ensures
            self.bytes().len() == 32,
    {
    }
}

impl Default for PresentationBinding {
    fn default() -> (binding: Self)
        ensures
            binding.bytes() == single_digest(presentation_binding_domain(), Seq::<u8>::empty()),
    {
        let empty: [u8; 0] = [];
        let data = vstd::array::array_as_slice(&empty);
        assert(data@ =~= Seq::<u8>::empty());
        Self::new(data)
    }
}

/// Server policy for one credential presentation.
///
/// The zero-knowledge statement includes the presentation limit; tag
/// derivation excludes it. Raising the limit extends the same bucket instead
/// of creating a second allowance.
#[derive(Clone, Copy, Debug, PartialEq, Eq)]
pub struct PresentationChallenge {
    pub(crate) credential_context: CredentialContext,
    pub(crate) presentation_context: PresentationContext,
    pub(crate) binding: PresentationBinding,
    pub(crate) limit: u32,
}

impl PresentationChallenge {
    /// Credential-issuance context required by this challenge.
    pub closed spec fn spec_credential_context(self) -> CredentialContext {
        self.credential_context
    }

    /// Scoped rate-limit bucket.
    pub closed spec fn spec_presentation_context(self) -> PresentationContext {
        self.presentation_context
    }

    /// Per-request proof binding.
    pub closed spec fn spec_binding(self) -> PresentationBinding {
        self.binding
    }

    /// Maximum number of accepted tags from one credential in this bucket.
    pub closed spec fn spec_limit(self) -> u32 {
        self.limit
    }

    /// Each context and the binding of a challenge is a 32-byte digest.
    pub proof fn lemma_parts_are_digests(self)
        ensures
            self.spec_credential_context().bytes().len() == 32,
            self.spec_presentation_context().bytes().len() == 32,
            self.spec_binding().bytes().len() == 32,
    {
    }

    /// Construct a challenge. A zero limit is rejected because it admits no
    /// valid hidden nonce.
    ///
    /// # Errors
    ///
    /// Returns [`Error::InvalidPresentationLimit`] when `limit` is zero.
    pub fn new(
        credential_context: CredentialContext,
        presentation_context: PresentationContext,
        limit: u32,
        binding: PresentationBinding,
    ) -> (challenge: Result<Self, Error>)
        ensures
            limit == 0 <==> challenge == Err::<Self, Error>(Error::InvalidPresentationLimit),
            limit != 0 ==> challenge is Ok,
            challenge matches Ok(c) ==> c.spec_credential_context() == credential_context
                && c.spec_presentation_context() == presentation_context && c.spec_binding()
                == binding && c.spec_limit() == limit,
    {
        if limit == 0 {
            return Err(Error::InvalidPresentationLimit);
        }
        Ok(PresentationChallenge { credential_context, presentation_context, binding, limit })
    }

    /// Credential-issuance context required by this challenge.
    pub fn credential_context(self) -> (context: CredentialContext)
        ensures
            context == self.spec_credential_context(),
    {
        self.credential_context
    }

    /// Scoped rate-limit bucket.
    pub fn presentation_context(self) -> (context: PresentationContext)
        ensures
            context == self.spec_presentation_context(),
    {
        self.presentation_context
    }

    /// Per-request proof binding.
    pub fn binding(self) -> (binding: PresentationBinding)
        ensures
            binding == self.spec_binding(),
    {
        self.binding
    }

    /// Maximum number of accepted tags from one credential in this bucket.
    pub fn limit(self) -> (limit: u32)
        ensures
            limit == self.spec_limit(),
    {
        self.limit
    }
}

/// Changing any component of a scoped bucket changes the bytes that are
/// hashed into it: the relying party, purpose, and epoch are recovered
/// from the hashed message, and an absent epoch differs from an empty one.
pub proof fn lemma_scoped_components_distinguish(
    relying_party_a: Seq<u8>,
    purpose_a: Seq<u8>,
    epoch_a: Option<Seq<u8>>,
    relying_party_b: Seq<u8>,
    purpose_b: Seq<u8>,
    epoch_b: Option<Seq<u8>>,
)
    requires
        relying_party_a.len() <= u64::MAX,
        purpose_a.len() <= u64::MAX,
        relying_party_b.len() <= u64::MAX,
        purpose_b.len() <= u64::MAX,
        epoch_a matches Some(e) ==> e.len() <= u64::MAX,
        epoch_b matches Some(e) ==> e.len() <= u64::MAX,
        framed_message(
            presentation_scope_domain(),
            scoped_components(relying_party_a, purpose_a, epoch_a),
        ) == framed_message(
            presentation_scope_domain(),
            scoped_components(relying_party_b, purpose_b, epoch_b),
        ),
    ensures
        relying_party_a == relying_party_b,
        purpose_a == purpose_b,
        epoch_a == epoch_b,
{
    let domain = presentation_scope_domain();
    let a = scoped_components(relying_party_a, purpose_a, epoch_a);
    let b = scoped_components(relying_party_b, purpose_b, epoch_b);
    let fa = crate::digest::framed_components(a);
    let fb = crate::digest::framed_components(b);
    assert(framed_message(domain, a).skip(domain.len() as int) =~= fa);
    assert(framed_message(domain, b).skip(domain.len() as int) =~= fb);
    crate::digest::lemma_framing_injective(a, b);
    assert(a[0] == b[0]);
    assert(a[1] == b[1]);
    assert(a[2] == b[2]);
    assert(a[3] == b[3]);
    if epoch_a is Some && epoch_b is None {
        assert(a[2][0] == 1u8);
        assert(b[2][0] == 0u8);
    }
    if epoch_a is None && epoch_b is Some {
        assert(a[2][0] == 0u8);
        assert(b[2][0] == 1u8);
    }
}

/// Where the parts of a scoped bucket's input sit: after the label
/// `VOLE-ARC/scoped-presentation/v1` come the relying party, then the
/// purpose, then a presence byte (1 with an epoch, 0 without), then the
/// epoch (empty when absent), each after its length as a little-endian
/// `u64`.
pub proof fn lemma_scoped_message_layout(relying_party: Seq<u8>, purpose: Seq<u8>, epoch: Option<Seq<u8>>)
    ensures
        scoped_components(relying_party, purpose, epoch).len() == 4,
        scoped_components(relying_party, purpose, epoch)[0] == relying_party,
        scoped_components(relying_party, purpose, epoch)[1] == purpose,
        scoped_components(relying_party, purpose, epoch)[2] == (if epoch is Some {
            seq![1u8]
        } else {
            seq![0u8]
        }),
        scoped_components(relying_party, purpose, epoch)[3] == (match epoch {
            Some(e) => e,
            None => Seq::<u8>::empty(),
        }),
        framed_message(presentation_scope_domain(), scoped_components(relying_party, purpose, epoch))
            == "VOLE-ARC/scoped-presentation/v1".spec_bytes() + spec_u64_to_le_bytes(
            relying_party.len() as u64,
        ) + relying_party + spec_u64_to_le_bytes(purpose.len() as u64) + purpose
            + spec_u64_to_le_bytes(1) + (if epoch is Some {
            seq![1u8]
        } else {
            seq![0u8]
        }) + spec_u64_to_le_bytes(
            (match epoch {
                Some(e) => e,
                None => Seq::<u8>::empty(),
            }).len() as u64,
        ) + (match epoch {
            Some(e) => e,
            None => Seq::<u8>::empty(),
        }),
{
    let c = scoped_components(relying_party, purpose, epoch);
    let presence: Seq<u8> = if epoch is Some {
        seq![1u8]
    } else {
        seq![0u8]
    };
    let e: Seq<u8> = match epoch {
        Some(e) => e,
        None => Seq::<u8>::empty(),
    };
    assert(c =~= seq![relying_party, purpose, presence, e]);
    let c1 = c.drop_first();
    let c2 = c1.drop_first();
    let c3 = c2.drop_first();
    let c4 = c3.drop_first();
    assert(c1 =~= seq![purpose, presence, e]);
    assert(c2 =~= seq![presence, e]);
    assert(c3 =~= seq![e]);
    assert(c4 =~= Seq::<Seq<u8>>::empty());
    assert(framed_components(c4) == Seq::<u8>::empty());
    assert(framed_components(c3) =~= crate::digest::frame(e));
    assert(framed_components(c2) == crate::digest::frame(presence) + framed_components(c3));
    assert(framed_components(c1) == crate::digest::frame(purpose) + framed_components(c2));
    assert(framed_components(c) == crate::digest::frame(relying_party) + framed_components(c1));
    assert(presence.len() == 1);
    assert(framed_message(presentation_scope_domain(), c) =~= presentation_scope_domain()
        + spec_u64_to_le_bytes(relying_party.len() as u64) + relying_party + spec_u64_to_le_bytes(
        purpose.len() as u64,
    ) + purpose + spec_u64_to_le_bytes(1) + presence + spec_u64_to_le_bytes(e.len() as u64) + e);
}

} // verus!
