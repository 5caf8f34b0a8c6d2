//! Protocol errors, MAYO parameter sets, and VOLE proof-size/latency profiles.

use vstd::prelude::*;
use vstd::string::StringSliceAdditionalSpecFns;
use crate::wire::WireError;

verus! {

/// Errors from issuance, presentation, verification, and scoped accounting.
#[derive(Debug, Clone, Copy, PartialEq, Eq, Structural)]
pub enum Error {
    /// A request is malformed or does not match its retained client state.
    InvalidRequest,
    /// A VOLE-in-the-head proof did not verify.
    InvalidProof,
    /// A returned MAYO preimage does not authenticate the expected target.
    InvalidSignature,
    /// MAYO preimage sampling failed.
    SigningFailed,
    /// A zero presentation limit was supplied.
    InvalidPresentationLimit,
    /// The client-side counter already meets the challenge limit.
    RateLimitReached,
    /// The credential was issued under a different credential context.
    WrongCredentialContext,
    /// The artifact belongs to a different issuer key or protocol context.
    WrongIssuer,
    /// The tag was already accepted in this presentation context.
    TagAlreadyUsed,
    /// The durable tag store could not complete its operation.
    StorageFailure,
    /// The credential has reached the configured local context-state bound.
    TooManyPresentationContexts,
}

/// The human-readable description of each protocol error.
pub open spec fn error_message(error: Error) -> Seq<char> {
    match error {
        Error::InvalidRequest => "invalid VOLE-ARC request"@,
        Error::InvalidProof => "invalid VOLE-ARC proof"@,
        Error::InvalidSignature => "invalid MAYO credential authenticator"@,
        Error::SigningFailed => "MAYO preimage sampling failed"@,
        Error::InvalidPresentationLimit => "presentation limit must be nonzero"@,
        Error::RateLimitReached => "scoped presentation limit reached"@,
        Error::WrongCredentialContext => "credential context mismatch"@,
        Error::WrongIssuer => "issuer context mismatch"@,
        Error::TagAlreadyUsed => "scoped presentation tag already used"@,
        Error::StorageFailure => "tag store operation failed"@,
        Error::TooManyPresentationContexts => "credential presentation-context state limit reached"@,
    }
}

impl Error {
    /// The human-readable description of this error.
    pub fn message(&self) -> (text: &'static str)
        ensures
            text@ == error_message(*self),
    {
        match self {
            Error::InvalidRequest => "invalid VOLE-ARC request",
            Error::InvalidProof => "invalid VOLE-ARC proof",
            Error::InvalidSignature => "invalid MAYO credential authenticator",
            Error::SigningFailed => "MAYO preimage sampling failed",
            Error::InvalidPresentationLimit => "presentation limit must be nonzero",
            Error::RateLimitReached => "scoped presentation limit reached",
            Error::WrongCredentialContext => "credential context mismatch",
            Error::WrongIssuer => "issuer context mismatch",
            Error::TagAlreadyUsed => "scoped presentation tag already used",
            Error::StorageFailure => "tag store operation failed",
            Error::TooManyPresentationContexts => "credential presentation-context state limit reached",
        }
    }
}

/// VOLE tree geometry, trading prover latency against proof size.
#[derive(Debug, Clone, Copy, PartialEq, Eq, Structural)]
pub enum PerformanceProfile {
    /// Smallest proofs, with more seed-tree expansion.
    Compact,
    /// Middle point between proof size and prover latency.
    Balanced,
    /// Lowest built-in prover latency, with a larger correction payload.
    LowLatency,
}

/// The wire identifier of each profile.
pub open spec fn profile_wire_id(profile: PerformanceProfile) -> u8 {
    match profile {
        PerformanceProfile::Compact => 1,
        PerformanceProfile::Balanced => 2,
        PerformanceProfile::LowLatency => 3,
    }
}

/// The profile named by a wire identifier, if any.
pub open spec fn profile_from_wire_id(id: u8) -> Result<PerformanceProfile, WireError> {
    if id == 1 {
        Ok(PerformanceProfile::Compact)
    } else if id == 2 {
        Ok(PerformanceProfile::Balanced)
    } else if id == 3 {
        Ok(PerformanceProfile::LowLatency)
    } else {
        Err(WireError::InvalidEncoding)
    }
}

impl PerformanceProfile {
    /// The profile's wire identifier.
    pub fn wire_id(self) -> (id: u8)
        ensures
            id == profile_wire_id(self),
    {
        match self {
            PerformanceProfile::Compact => 1,
            PerformanceProfile::Balanced => 2,
            PerformanceProfile::LowLatency => 3,
        }
    }

    /// Decode a profile's wire identifier.
    pub fn from_wire_id(id: u8) -> (profile: Result<Self, WireError>)
        ensures
            profile == profile_from_wire_id(id),
    {
        match id {
            1 => Ok(PerformanceProfile::Compact),
            2 => Ok(PerformanceProfile::Balanced),
            3 => Ok(PerformanceProfile::LowLatency),
            _ => Err(WireError::InvalidEncoding),
        }
    }
}

/// Every profile's wire identifier decodes back to that profile, and only
/// identifiers of profiles decode.
pub proof fn lemma_profile_wire_roundtrip(profile: PerformanceProfile, id: u8)
    ensures
        profile_from_wire_id(profile_wire_id(profile)) == Ok::<PerformanceProfile, WireError>(
            profile,
        ),
        profile_from_wire_id(id) matches Ok(decoded) ==> profile_wire_id(decoded) == id,
{
}

/// A MAYO parameter set supported by the λ=128 suite: the sizes and labels
/// that the protocol logic reads from it.
///
/// This trait is sealed to MAYO1 and MAYO2. The VOLE proof layer has λ=128
/// soundness and 128-bit tree seeds. Exposing the category-3 or category-5
/// MAYO sets would overstate the security of the combined suite.
pub trait ArcParams: crate::sealed::Sealed {
    /// Number of GF(16) elements in a MAYO target (`m`).
    spec fn spec_m() -> nat;

    /// Number of GF(16) elements in a MAYO preimage (`k * n`).
    spec fn spec_kn() -> nat;

    /// The MAYO dimensions `(n, m, o, k)`.
    spec fn spec_dimensions() -> (u64, u64, u64, u64);

    /// Parameter-set byte in every wire envelope.
    spec fn spec_wire_id() -> u8;

    /// The bytes of the parameter-set name.
    spec fn spec_name() -> Seq<u8>;

    /// Number of GF(16) elements in a MAYO target (`m`).
    fn m() -> (m: usize)
        ensures
            m == Self::spec_m(),
            0 < m <= 80,
    ;

    /// Number of GF(16) elements in a MAYO preimage (`k * n`).
    fn kn() -> (kn: usize)
        ensures
            kn == Self::spec_kn(),
            0 < kn <= 1024,
    ;

    /// The MAYO dimensions `(n, m, o, k)`.
    fn dimensions() -> (dimensions: (u64, u64, u64, u64))
        ensures
            dimensions == Self::spec_dimensions(),
    ;

    /// Parameter-set byte in every wire envelope.
    fn wire_id() -> (id: u8)
        ensures
            id == Self::spec_wire_id(),
    ;

    /// Parameter-set name bound into statements and the issuer context.
    fn name() -> (name: &'static str)
        ensures
            name.spec_bytes() == Self::spec_name(),
            Self::spec_name().len() <= 16,
    ;
}

/// MAYO1: `n = 86`, `m = 78`, `o = 8`, `k = 10`.
#[derive(Debug, Clone, Copy)]
pub struct Mayo1;

/// MAYO2, the default: `n = 81`, `m = 64`, `o = 17`, `k = 4`.
#[derive(Debug, Clone, Copy)]
pub struct Mayo2;

impl crate::sealed::Sealed for Mayo1 {
}

impl crate::sealed::Sealed for Mayo2 {
}

impl ArcParams for Mayo1 {
    open spec fn spec_m() -> nat {
        78
    }

    open spec fn spec_kn() -> nat {
        860
    }

    open spec fn spec_dimensions() -> (u64, u64, u64, u64) {
        (86, 78, 8, 10)
    }

    open spec fn spec_wire_id() -> u8 {
        1
    }

    open spec fn spec_name() -> Seq<u8> {
        "MAYO_1".spec_bytes()
    }

    fn m() -> (m: usize) {
        78
    }

    fn kn() -> (kn: usize) {
        860
    }

    fn dimensions() -> (dimensions: (u64, u64, u64, u64)) {
        (86, 78, 8, 10)
    }

    fn wire_id() -> (id: u8) {
        1
    }

    fn name() -> (name: &'static str) {
        proof {
            reveal_strlit("MAYO_1");
            broadcast use vstd::string::is_ascii_spec_bytes;
            assert(vstd::string::is_ascii("MAYO_1"));
        }
        "MAYO_1"
    }
}

impl ArcParams for Mayo2 {
    open spec fn spec_m() -> nat {
        64
    }

    open spec fn spec_kn() -> nat {
        324
    }

    open spec fn spec_dimensions() -> (u64, u64, u64, u64) {
        (81, 64, 17, 4)
    }

    open spec fn spec_wire_id() -> u8 {
        2
    }

    open spec fn spec_name() -> Seq<u8> {
        "MAYO_2".spec_bytes()
    }

    fn m() -> (m: usize) {
        64
    }

    fn kn() -> (kn: usize) {
        324
    }

    fn dimensions() -> (dimensions: (u64, u64, u64, u64)) {
        (81, 64, 17, 4)
    }

    fn wire_id() -> (id: u8) {
        2
    }

    fn name() -> (name: &'static str) {
        proof {
            reveal_strlit("MAYO_2");
            broadcast use vstd::string::is_ascii_spec_bytes;
            assert(vstd::string::is_ascii("MAYO_2"));
        }
        "MAYO_2"
    }
}

} // verus!
