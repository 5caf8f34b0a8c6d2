//! Protocol flows with stand-in MAYO and proof closures: the "proof" of a
//! statement is the statement itself, and the stand-in MAYO map keeps the
//! first `m` preimage elements.

use vole_arc::circuit::{derive_tag, presentation_scope, IssueCircuit, PresentationCircuit};
use vole_arc::protocol::{
    decode_proof, derive_issuer_context, encode_bytes, gf16_slices_equal, issue_statement,
    presentation_statement, settle_insert, ProofDecodeError,
};
use vole_arc::{
    ArcParams, Credential, CredentialContext, Error, IssueRequest, IssueResponse, Issuer, Mayo1,
    Mayo2, MemoryTagStore, PendingIssue, PerformanceProfile, Presentation, PresentationBinding,
    PresentationChallenge, PresentationContext, PublicKey, TagStore, Verifier, WireError,
    MAX_APPLICATION_CONTEXT_BYTES,
};

fn prove_issue<P: ArcParams>(_: &IssueCircuit<P>, statement: &[u8], _: &[bool]) -> Option<Vec<u8>> {
    Some(statement.to_vec())
}

fn check_issue<P: ArcParams>(_: &IssueCircuit<P>, statement: &[u8], proof: &[u8]) -> bool {
    statement == proof
}

fn prove_presentation<P: ArcParams>(
    _: &PresentationCircuit<P>,
    statement: &[u8],
    _: &[bool],
) -> Option<Vec<u8>> {
    Some(statement.to_vec())
}

fn check_presentation<P: ArcParams>(_: &PresentationCircuit<P>, statement: &[u8], proof: &[u8]) -> bool {
    statement == proof
}

fn parse_proof(_: &[u8]) -> Result<(), ProofDecodeError> {
    Ok(())
}

fn evaluate<P: ArcParams>(signature: &[u8]) -> Option<Vec<u8>> {
    if signature.len() < P::m() {
        None
    } else {
        Some(signature[..P::m()].to_vec())
    }
}

fn sign<P: ArcParams>(target: &[u8]) -> Option<Vec<u8>> {
    let mut signature = target.to_vec();
    signature.resize(P::kn(), 0);
    Some(signature)
}

fn make_issuer<P: ArcParams>(label: &[u8]) -> Issuer<P> {
    let public = PublicKey::<P>::assemble(
        vec![0xa5; 40],
        &[0x11; 32],
        PerformanceProfile::LowLatency,
        16,
        8,
        label,
    );
    Issuer::assemble(vec![0x5a; 24], public)
}

fn challenge(
    credential_context: CredentialContext,
    presentation_context: PresentationContext,
    limit: u32,
    binding: &[u8],
) -> PresentationChallenge {
    PresentationChallenge::new(
        credential_context,
        presentation_context,
        limit,
        PresentationBinding::new(binding),
    )
    .unwrap()
}

fn credential<P: ArcParams>(
    issuer: &Issuer<P>,
    credential_context: CredentialContext,
    seed: u8,
) -> Credential<P> {
    let public = issuer.public_key();
    let (pending, request) = public
        .prepare_issue(credential_context, [seed; 32], [seed ^ 0xff; 32], prove_issue::<P>)
        .unwrap();
    let response = issuer
        .issue(&request, credential_context, check_issue::<P>, || [seed.wrapping_add(1); 32], sign::<P>)
        .unwrap();
    pending.finish(public, &request, &response, evaluate::<P>).unwrap()
}

#[test]
fn scoped_limits_bind_policy_and_survive_wire_round_trips() {
    let issuer = make_issuer::<Mayo1>(b"example.net/vole-arc/key-epoch-7");
    let public = issuer.public_key().clone();
    let credential_context = CredentialContext::new(b"attestation-class/basic");
    let (pending, request) = public
        .prepare_issue(credential_context, [1; 32], [2; 32], prove_issue::<Mayo1>)
        .unwrap();
    let pending_bytes = pending.to_bytes();
    let request = IssueRequest::<Mayo1>::from_bytes(&request.to_bytes(), parse_proof).unwrap();
    let response = issuer
        .issue(&request, credential_context, check_issue::<Mayo1>, || [3; 32], sign::<Mayo1>)
        .unwrap();
    let response = IssueResponse::<Mayo1>::from_bytes(&response.to_bytes()).unwrap();
    let pending = PendingIssue::<Mayo1>::from_bytes(&public, &pending_bytes).unwrap();
    let mut credential = pending
        .finish(&public, &request, &response, evaluate::<Mayo1>)
        .unwrap();

    let first_scope = PresentationContext::scoped(b"rp.example", b"account-create", Some(b"epoch-42"));
    let first = challenge(credential_context, first_scope, 2, b"request-1");
    let presentation0 = credential
        .present(&public, &first, prove_presentation::<Mayo1>)
        .unwrap();
    let presentation0 =
        Presentation::<Mayo1>::from_bytes(&presentation0.to_bytes(), parse_proof).unwrap();
    assert_eq!(credential.next_nonce(first_scope), 1);

    // Binding, context, and limit are all statement inputs.
    let wrong_binding = challenge(credential_context, first_scope, 2, b"request-other");
    assert_eq!(
        public
            .verify_proof_only(&wrong_binding, &presentation0, check_presentation::<Mayo1>)
            .unwrap_err(),
        Error::InvalidProof
    );
    let wrong_limit = challenge(credential_context, first_scope, 3, b"request-1");
    assert_eq!(
        public
            .verify_proof_only(&wrong_limit, &presentation0, check_presentation::<Mayo1>)
            .unwrap_err(),
        Error::InvalidProof
    );

    let mut verifier = Verifier::new(public.clone());
    let verified = verifier
        .verify(&first, &presentation0, check_presentation::<Mayo1>)
        .unwrap();
    assert_eq!(verified.tag(), presentation0.tag());
    assert_eq!(verifier.accepted_count(), 1);
    assert_eq!(
        verifier
            .verify(&first, &presentation0, check_presentation::<Mayo1>)
            .unwrap_err(),
        Error::TagAlreadyUsed
    );

    let second = challenge(credential_context, first_scope, 2, b"request-2");
    let presentation1 = credential
        .present(&public, &second, prove_presentation::<Mayo1>)
        .unwrap();
    assert_ne!(presentation0.tag(), presentation1.tag());
    verifier
        .verify(&second, &presentation1, check_presentation::<Mayo1>)
        .unwrap();
    assert_eq!(
        credential
            .present(&public, &second, prove_presentation::<Mayo1>)
            .unwrap_err(),
        Error::RateLimitReached
    );

    // Raising the limit extends the same nonce and tag namespace.
    let extended = challenge(credential_context, first_scope, 3, b"request-3");
    let presentation2 = credential
        .present(&public, &extended, prove_presentation::<Mayo1>)
        .unwrap();
    verifier
        .verify(&extended, &presentation2, check_presentation::<Mayo1>)
        .unwrap();
    assert_eq!(credential.next_nonce(first_scope), 3);
    assert_eq!(
        credential
            .present(&public, &extended, prove_presentation::<Mayo1>)
            .unwrap_err(),
        Error::RateLimitReached
    );

    // A new epoch is an independent bucket.
    let epoch_scope = PresentationContext::scoped(b"rp.example", b"account-create", Some(b"epoch-43"));
    let epoch_challenge = challenge(credential_context, epoch_scope, 1, b"request-4");
    let epoch_presentation = credential
        .present(&public, &epoch_challenge, prove_presentation::<Mayo1>)
        .unwrap();
    assert_ne!(presentation0.tag(), epoch_presentation.tag());
    verifier
        .verify(&epoch_challenge, &epoch_presentation, check_presentation::<Mayo1>)
        .unwrap();
    assert_eq!(verifier.accepted_count(), 4);
    assert_eq!(credential.context_count(), 2);

    // Serialisation retains both counters.
    let restored =
        Credential::<Mayo1>::from_bytes(&public, &credential.to_bytes(), evaluate::<Mayo1>).unwrap();
    assert_eq!(restored.next_nonce(first_scope), 3);
    assert_eq!(restored.next_nonce(epoch_scope), 1);
    assert_eq!(restored.to_bytes(), credential.to_bytes());

    // A zero next nonce is not canonical: the entry is omitted instead.
    let mut noncanonical = credential.to_bytes();
    let last_nonce = noncanonical.len() - 4;
    noncanonical[last_nonce..].fill(0);
    assert!(matches!(
        Credential::<Mayo1>::from_bytes(&public, &noncanonical, evaluate::<Mayo1>),
        Err(WireError::InvalidEncoding)
    ));

    // Removing every counter leaves an authentic credential whose tags
    // repeat; the verifier refuses the repeat.
    let mut counters_removed = credential.to_bytes();
    let counter_bytes = 36 * credential.context_count();
    let count_offset = counters_removed.len() - counter_bytes - 4;
    counters_removed[count_offset..count_offset + 4].fill(0);
    counters_removed.truncate(count_offset + 4);
    let mut rolled_back =
        Credential::<Mayo1>::from_bytes(&public, &counters_removed, evaluate::<Mayo1>).unwrap();
    assert_eq!(rolled_back.context_count(), 0);
    let repeated = rolled_back
        .present(&public, &first, prove_presentation::<Mayo1>)
        .unwrap();
    assert_eq!(repeated.tag(), presentation0.tag());
    assert_eq!(
        verifier
            .verify(&first, &repeated, check_presentation::<Mayo1>)
            .unwrap_err(),
        Error::TagAlreadyUsed
    );
}

#[test]
fn presentation_checks_come_in_order() {
    let issuer = make_issuer::<Mayo2>(b"checks");
    let public = issuer.public_key().clone();
    let credential_context = CredentialContext::new(b"class");
    let mut credential = credential(&issuer, credential_context, 7);
    let context = PresentationContext::new(b"bucket");

    let other_issuer = make_issuer::<Mayo2>(b"other-key");
    let wrong_issuer = challenge(credential_context, context, 1, b"x");
    assert_eq!(
        credential
            .present(other_issuer.public_key(), &wrong_issuer, prove_presentation::<Mayo2>)
            .unwrap_err(),
        Error::WrongIssuer
    );
    let wrong_context = challenge(CredentialContext::new(b"other-class"), context, 1, b"x");
    assert_eq!(
        credential
            .present(&public, &wrong_context, prove_presentation::<Mayo2>)
            .unwrap_err(),
        Error::WrongCredentialContext
    );
    let refused = |_: &PresentationCircuit<Mayo2>, _: &[u8], _: &[bool]| -> Option<Vec<u8>> { None };
    let ok = challenge(credential_context, context, 1, b"x");
    assert_eq!(
        credential.present(&public, &ok, refused).unwrap_err(),
        Error::InvalidProof
    );
    assert_eq!(credential.next_nonce(context), 0);
    assert_eq!(credential.context_count(), 0);
    credential
        .present(&public, &ok, prove_presentation::<Mayo2>)
        .unwrap();
    assert_eq!(credential.next_nonce(context), 1);
}

#[test]
fn presentation_tag_is_the_scoped_derived_tag() {
    let issuer = make_issuer::<Mayo2>(b"tags");
    let public = issuer.public_key().clone();
    let credential_context = CredentialContext::new(b"class");
    let mut credential = credential(&issuer, credential_context, 9);
    let context = PresentationContext::new(b"bucket");
    let first = challenge(credential_context, context, 5, b"a");
    let presentation = credential
        .present(&public, &first, prove_presentation::<Mayo2>)
        .unwrap();
    let scope = presentation_scope(&public.context(), &credential_context.digest(), &context.digest());
    assert_eq!(presentation.tag(), derive_tag(&[9; 32], &scope, 0));
}

#[test]
fn verifier_storage_failure_fails_closed() {
    struct FailingStore;

    impl TagStore for FailingStore {
        fn accepted(&self) -> vstd::set::Set<(vstd::seq::Seq<u8>, vstd::seq::Seq<u8>)> {
            vstd::set::Set::empty()
        }

        fn never_fails(&self) -> bool {
            false
        }

        fn insert_if_absent(&mut self, _scope: [u8; 32], _tag: [u8; 32]) -> Result<bool, Error> {
            Err(Error::StorageFailure)
        }
    }

    let issuer = make_issuer::<Mayo2>(b"store");
    let public = issuer.public_key().clone();
    let credential_context = CredentialContext::new(b"class");
    let mut credential = credential(&issuer, credential_context, 3);
    let first = challenge(credential_context, PresentationContext::new(b"bucket"), 1, b"a");
    let presentation = credential
        .present(&public, &first, prove_presentation::<Mayo2>)
        .unwrap();
    let mut failing = Verifier::with_store(public.clone(), FailingStore);
    assert_eq!(
        failing
            .verify(&first, &presentation, check_presentation::<Mayo2>)
            .unwrap_err(),
        Error::StorageFailure
    );
    let zero = PresentationChallenge::new(
        credential_context,
        PresentationContext::new(b"bucket"),
        0,
        PresentationBinding::default(),
    );
    assert_eq!(zero, Err(Error::InvalidPresentationLimit));
    let mut memory: Verifier<Mayo2, MemoryTagStore> = Verifier::new(public);
    assert!(memory.store().is_empty());
    memory
        .verify(&first, &presentation, check_presentation::<Mayo2>)
        .unwrap();
    assert_eq!(memory.store_mut().len(), 1);
}

#[test]
fn issuance_refusals() {
    let issuer = make_issuer::<Mayo1>(b"issuance");
    let public = issuer.public_key().clone();
    let credential_context = CredentialContext::new(b"credential-epoch");
    let (pending, request) = public
        .prepare_issue(credential_context, [4; 32], [5; 32], prove_issue::<Mayo1>)
        .unwrap();

    let failed_signing = issuer.issue(
        &request,
        credential_context,
        check_issue::<Mayo1>,
        || [6; 32],
        |_: &[u8]| None,
    );
    assert!(matches!(failed_signing, Err(Error::SigningFailed)));

    let first = issuer
        .issue(&request, credential_context, check_issue::<Mayo1>, || [6; 32], sign::<Mayo1>)
        .unwrap();
    let second = issuer
        .issue(&request, credential_context, check_issue::<Mayo1>, || [7; 32], sign::<Mayo1>)
        .unwrap();
    assert_ne!(first.to_bytes(), second.to_bytes());

    // A response for another salt does not authenticate.
    let mut forged = first.to_bytes();
    let salt_start = forged.len() - 32;
    forged[salt_start] ^= 1;
    let forged = IssueResponse::<Mayo1>::from_bytes(&forged).unwrap();
    let pending_bytes = pending.to_bytes();
    assert!(matches!(
        pending.finish(&public, &request, &forged, evaluate::<Mayo1>),
        Err(Error::InvalidSignature)
    ));

    // Pending state belongs to one issuer.
    let other = make_issuer::<Mayo1>(b"other");
    assert!(matches!(
        PendingIssue::<Mayo1>::from_bytes(other.public_key(), &pending_bytes),
        Err(WireError::WrongIssuer)
    ));
    let other_request = IssueRequest::<Mayo1>::from_bytes(&request.to_bytes(), parse_proof).unwrap();
    let (other_pending, _) = public
        .prepare_issue(credential_context, [8; 32], [9; 32], prove_issue::<Mayo1>)
        .unwrap();
    assert!(matches!(
        other_pending.finish(&public, &other_request, &first, evaluate::<Mayo1>),
        Err(Error::InvalidRequest)
    ));

    let refused = public.prepare_issue(
        credential_context,
        [1; 32],
        [2; 32],
        |_: &IssueCircuit<Mayo1>, _: &[u8], _: &[bool]| -> Option<Vec<u8>> { None },
    );
    assert!(matches!(refused, Err(Error::InvalidProof)));
}

#[test]
fn artifacts_reject_wrong_suite_and_truncation() {
    let issuer = make_issuer::<Mayo1>(b"suites");
    let public = issuer.public_key().clone();
    let credential_context = CredentialContext::new(b"class");
    let (_, request) = public
        .prepare_issue(credential_context, [1; 32], [2; 32], prove_issue::<Mayo1>)
        .unwrap();
    let bytes = request.to_bytes();
    assert!(matches!(
        IssueRequest::<Mayo2>::from_bytes(&bytes, parse_proof),
        Err(WireError::WrongParameterSet)
    ));
    assert!(matches!(
        IssueResponse::<Mayo1>::from_bytes(&bytes),
        Err(WireError::WrongArtifact)
    ));
    assert!(matches!(
        IssueRequest::<Mayo1>::from_bytes(&bytes[..bytes.len() - 1], parse_proof),
        Err(WireError::InvalidEncoding)
    ));
    let mut trailing = bytes.clone();
    trailing.push(0);
    assert!(matches!(
        IssueRequest::<Mayo1>::from_bytes(&trailing, parse_proof),
        Err(WireError::InvalidEncoding)
    ));
    assert!(matches!(
        IssueRequest::<Mayo1>::from_bytes(&bytes, |_: &[u8]| Err(ProofDecodeError::UnsupportedVersion)),
        Err(WireError::UnsupportedVersion)
    ));
    let decoded = IssueRequest::<Mayo1>::from_bytes(&bytes, parse_proof).unwrap();
    assert_eq!(decoded.commitment(), request.commitment());
    assert_eq!(decoded.proof_bytes(), request.proof_bytes());
}

#[test]
fn issuer_key_round_trip_preserves_public_context() {
    let issuer = make_issuer::<Mayo1>(b"key-round-trip");
    let (profile, application_context, secret_key) =
        Issuer::<Mayo1>::decode_key_fields(&issuer.key_bytes()).unwrap();
    assert_eq!(profile, PerformanceProfile::LowLatency);
    assert_eq!(application_context, b"key-round-trip".to_vec());
    assert_eq!(secret_key, vec![0x5a; 24]);
    let (profile, application_context, mayo_key) =
        PublicKey::<Mayo1>::decode_fields(&issuer.public_key().to_bytes()).unwrap();
    let restored = PublicKey::<Mayo1>::assemble(mayo_key, &[0x11; 32], profile, 16, 8, &application_context);
    assert_eq!(restored.to_bytes(), issuer.public_key().to_bytes());
    assert_eq!(restored.context(), issuer.public_key().context());
    assert_eq!(
        restored.context(),
        derive_issuer_context::<Mayo1>(b"key-round-trip", &[0x11; 32], 16, 8)
    );
}

#[test]
fn issuer_key_rejects_oversized_application_context_before_copying() {
    let mut encoded = Vec::new();
    vole_arc::wire::header(&mut encoded, vole_arc::protocol::WIRE_ISSUER_KEY, Mayo1::wire_id());
    encoded.push(PerformanceProfile::Balanced.wire_id());
    vole_arc::wire::put_bytes(&mut encoded, &vec![0u8; MAX_APPLICATION_CONTEXT_BYTES + 1]);
    vole_arc::wire::put_bytes(&mut encoded, &[]);

    assert!(matches!(
        Issuer::<Mayo1>::decode_key_fields(&encoded),
        Err(WireError::InvalidEncoding)
    ));
}

#[test]
fn unknown_profile_is_invalid() {
    let mut encoded = Vec::new();
    vole_arc::wire::header(&mut encoded, vole_arc::protocol::WIRE_PUBLIC_KEY, Mayo2::wire_id());
    encoded.push(9);
    vole_arc::wire::put_bytes(&mut encoded, b"");
    vole_arc::wire::put_bytes(&mut encoded, b"");
    assert!(matches!(
        PublicKey::<Mayo2>::decode_fields(&encoded),
        Err(WireError::InvalidEncoding)
    ));
    assert_eq!(PerformanceProfile::from_wire_id(2), Ok(PerformanceProfile::Balanced));
    assert_eq!(PerformanceProfile::Compact.wire_id(), 1);
}

#[test]
fn tampered_credential_is_not_authentic() {
    let issuer = make_issuer::<Mayo2>(b"tamper");
    let public = issuer.public_key().clone();
    let credential = credential(&issuer, CredentialContext::new(b"class"), 4);
    let mut bytes = credential.to_bytes();
    // Flip a bit of the secret: the preimage no longer authenticates it.
    bytes[9 + 64 + Mayo2::kn() / 2] ^= 1;
    assert!(matches!(
        Credential::<Mayo2>::from_bytes(&public, &bytes, evaluate::<Mayo2>),
        Err(WireError::InvalidCredential)
    ));
    let other = make_issuer::<Mayo2>(b"other");
    assert!(matches!(
        Credential::<Mayo2>::from_bytes(other.public_key(), &credential.to_bytes(), evaluate::<Mayo2>),
        Err(WireError::WrongIssuer)
    ));
}

#[test]
fn gf16_comparison_is_exact() {
    assert!(gf16_slices_equal(&[1, 2, 3], &[1, 2, 3]));
    assert!(!gf16_slices_equal(&[1, 2, 3], &[1, 2, 4]));
    assert!(!gf16_slices_equal(&[1, 2, 3], &[1, 2]));
    assert!(gf16_slices_equal(&[], &[]));
}

#[test]
fn statements_and_issuer_context_layout() {
    let mut encoded = Vec::new();
    encode_bytes(b"abc", &mut encoded);
    assert_eq!(encoded, vec![3, 0, 0, 0, 0, 0, 0, 0, b'a', b'b', b'c']);

    let statement = issue_statement::<Mayo2>(&[1; 32], &[2; 32], &[5, 6]);
    let mut expected = b"VOLE-ARC/issue-statement/v1".to_vec();
    expected.extend_from_slice(&6u64.to_le_bytes());
    expected.extend_from_slice(b"MAYO_2");
    expected.extend_from_slice(&[1; 32]);
    expected.extend_from_slice(&[2; 32]);
    expected.extend_from_slice(&2u64.to_le_bytes());
    expected.extend_from_slice(&[5, 6]);
    assert_eq!(statement, expected);

    let challenge = challenge(
        CredentialContext::new(b"c"),
        PresentationContext::new(b"p"),
        9,
        b"b",
    );
    let statement = presentation_statement::<Mayo1>(&[3; 32], &challenge, &[4; 32]);
    let mut expected = b"VOLE-ARC/presentation-statement/v1".to_vec();
    expected.extend_from_slice(&6u64.to_le_bytes());
    expected.extend_from_slice(b"MAYO_1");
    expected.extend_from_slice(&[3; 32]);
    expected.extend_from_slice(&CredentialContext::new(b"c").digest());
    expected.extend_from_slice(&PresentationContext::new(b"p").digest());
    expected.extend_from_slice(&9u32.to_le_bytes());
    expected.extend_from_slice(&PresentationBinding::new(b"b").digest());
    expected.extend_from_slice(&[4; 32]);
    assert_eq!(statement, expected);
}

#[test]
fn decode_proof_maps_backend_errors() {
    assert_eq!(decode_proof(b"xy", Ok(())), Ok(b"xy".to_vec()));
    assert_eq!(
        decode_proof(b"xy", Err(ProofDecodeError::TooLarge)),
        Err(WireError::TooLarge)
    );
    assert_eq!(
        decode_proof(b"xy", Err(ProofDecodeError::InvalidEncoding)),
        Err(WireError::InvalidEncoding)
    );
}

#[test]
fn error_messages_describe_each_error() {
    assert_eq!(Error::TagAlreadyUsed.message(), "scoped presentation tag already used");
    assert_eq!(Error::RateLimitReached.message(), "scoped presentation limit reached");
    assert_eq!(
        Error::InvalidPresentationLimit.message(),
        "presentation limit must be nonzero"
    );
}

#[test]
fn too_many_contexts_is_refused() {
    let issuer = make_issuer::<Mayo2>(b"contexts");
    let public = issuer.public_key().clone();
    let credential_context = CredentialContext::new(b"class");
    let credential = credential(&issuer, credential_context, 1);
    // Re-encode the credential with the maximum number of counters.
    let mut bytes = credential.to_bytes();
    let count_offset = bytes.len() - 4;
    bytes.truncate(count_offset);
    let count = vole_arc::MAX_PRESENTATION_CONTEXTS as u32;
    bytes.extend_from_slice(&count.to_le_bytes());
    for index in 0..count {
        let mut context = [0u8; 32];
        context[28..].copy_from_slice(&index.to_be_bytes());
        bytes.extend_from_slice(&context);
        bytes.extend_from_slice(&1u32.to_le_bytes());
    }
    let mut full = Credential::<Mayo2>::from_bytes(&public, &bytes, evaluate::<Mayo2>).unwrap();
    assert_eq!(full.context_count(), vole_arc::MAX_PRESENTATION_CONTEXTS);
    let fresh = challenge(credential_context, PresentationContext::new(b"fresh"), 1, b"r");
    assert_eq!(
        full.present(&public, &fresh, prove_presentation::<Mayo2>)
            .unwrap_err(),
        Error::TooManyPresentationContexts
    );
    assert_eq!(full.to_bytes(), bytes);

    // Counters out of order are not canonical.
    let mut unordered = bytes.clone();
    let first_entry = count_offset + 4;
    unordered[first_entry + 31] = 0xff;
    assert!(matches!(
        Credential::<Mayo2>::from_bytes(&public, &unordered, evaluate::<Mayo2>),
        Err(WireError::InvalidEncoding)
    ));

    // More counters than the bound are refused before any is read.
    let mut too_many = bytes.clone();
    too_many[count_offset..count_offset + 4].copy_from_slice(&(count + 1).to_le_bytes());
    assert!(matches!(
        Credential::<Mayo2>::from_bytes(&public, &too_many, evaluate::<Mayo2>),
        Err(WireError::InvalidEncoding)
    ));
}

#[test]
fn default_mayo2_round_trips_and_rejects_replay() {
    let issuer = make_issuer::<Mayo2>(b"default-mayo2");
    let (profile, application_context, secret_key) =
        Issuer::<Mayo2>::decode_key_fields(&issuer.key_bytes()).unwrap();
    let (public_profile, public_context, mayo_key) =
        PublicKey::<Mayo2>::decode_fields(&issuer.public_key().to_bytes()).unwrap();
    assert_eq!(profile, public_profile);
    assert_eq!(application_context, public_context);
    let public = PublicKey::<Mayo2>::assemble(mayo_key, &[0x11; 32], profile, 16, 8, &application_context);
    let issuer = Issuer::assemble(secret_key, public.clone());
    let credential_context = CredentialContext::new(b"default-suite");
    let (pending, request) = public
        .prepare_issue(credential_context, [1; 32], [2; 32], prove_issue::<Mayo2>)
        .unwrap();
    let pending_bytes = pending.to_bytes();
    let request = IssueRequest::<Mayo2>::from_bytes(&request.to_bytes(), parse_proof).unwrap();
    let response = issuer
        .issue(&request, credential_context, check_issue::<Mayo2>, || [3; 32], sign::<Mayo2>)
        .unwrap();
    let response = IssueResponse::<Mayo2>::from_bytes(&response.to_bytes()).unwrap();
    let pending = PendingIssue::<Mayo2>::from_bytes(&public, &pending_bytes).unwrap();
    let credential = pending
        .finish(&public, &request, &response, evaluate::<Mayo2>)
        .unwrap();
    let mut credential =
        Credential::<Mayo2>::from_bytes(&public, &credential.to_bytes(), evaluate::<Mayo2>).unwrap();

    let challenge = challenge(
        credential_context,
        PresentationContext::scoped(b"default.example", b"login", Some(b"epoch-1")),
        1,
        b"request",
    );
    let presentation = credential
        .present(&public, &challenge, prove_presentation::<Mayo2>)
        .unwrap();
    let presentation = Presentation::<Mayo2>::from_bytes(&presentation.to_bytes(), parse_proof).unwrap();
    let mut verifier = Verifier::new(public);
    verifier
        .verify(&challenge, &presentation, check_presentation::<Mayo2>)
        .unwrap();
    assert_eq!(
        verifier
            .verify(&challenge, &presentation, check_presentation::<Mayo2>)
            .unwrap_err(),
        Error::TagAlreadyUsed
    );
}

#[test]
fn signer_salt_randomizes_authenticators_without_minting_new_lineage() {
    let issuer = make_issuer::<Mayo1>(b"signer-salt");
    let public = issuer.public_key().clone();
    let credential_context = CredentialContext::new(b"credential-epoch");
    let (pending, request) = public
        .prepare_issue(credential_context, [4; 32], [5; 32], prove_issue::<Mayo1>)
        .unwrap();
    let pending_bytes = pending.to_bytes();

    let first = issuer
        .issue(&request, credential_context, check_issue::<Mayo1>, || [6; 32], sign::<Mayo1>)
        .unwrap();
    let second = issuer
        .issue(&request, credential_context, check_issue::<Mayo1>, || [7; 32], sign::<Mayo1>)
        .unwrap();
    assert_ne!(first.to_bytes(), second.to_bytes());

    let mut first_credential = PendingIssue::<Mayo1>::from_bytes(&public, &pending_bytes)
        .unwrap()
        .finish(&public, &request, &first, evaluate::<Mayo1>)
        .unwrap();
    let mut second_credential = PendingIssue::<Mayo1>::from_bytes(&public, &pending_bytes)
        .unwrap()
        .finish(&public, &request, &second, evaluate::<Mayo1>)
        .unwrap();
    let bucket = challenge(credential_context, PresentationContext::new(b"same-bucket"), 1, b"r");
    assert_eq!(
        first_credential
            .present(&public, &bucket, prove_presentation::<Mayo1>)
            .unwrap()
            .tag(),
        second_credential
            .present(&public, &bucket, prove_presentation::<Mayo1>)
            .unwrap()
            .tag(),
        "two signer salts over one client opening remain one rate-limit lineage"
    );

    let wrong_context = CredentialContext::new(b"different-credential-epoch");
    let mut salt_drawn = false;
    assert!(matches!(
        issuer.issue(
            &request,
            wrong_context,
            check_issue::<Mayo1>,
            || {
                salt_drawn = true;
                [0; 32]
            },
            sign::<Mayo1>,
        ),
        Err(Error::InvalidProof)
    ));
    assert!(
        !salt_drawn,
        "an invalid issue request must fail before signer randomness is consumed"
    );
}

#[test]
fn verifier_settles_each_store_answer() {
    let issuer = make_issuer::<Mayo2>(b"settle");
    let public = issuer.public_key().clone();
    let credential_context = CredentialContext::new(b"class");
    let mut credential = credential(&issuer, credential_context, 4);
    let first = challenge(credential_context, PresentationContext::new(b"bucket"), 2, b"a");
    let presentation = credential
        .present(&public, &first, prove_presentation::<Mayo2>)
        .unwrap();
    let verified = public
        .verify_proof_only(&first, &presentation, check_presentation::<Mayo2>)
        .unwrap();
    assert_eq!(verified.tag(), presentation.tag());
    assert_eq!(settle_insert(verified, Ok(true)), Ok(verified));
    assert_eq!(settle_insert(verified, Ok(false)), Err(Error::TagAlreadyUsed));
    assert_eq!(
        settle_insert(verified, Err(Error::StorageFailure)),
        Err(Error::StorageFailure)
    );
    let mut verifier: Verifier<Mayo2, MemoryTagStore> = Verifier::new(public);
    assert_eq!(
        verifier.verify(&first, &presentation, check_presentation::<Mayo2>),
        Ok(verified)
    );
    assert_eq!(
        verifier.verify(&first, &presentation, check_presentation::<Mayo2>),
        Err(Error::TagAlreadyUsed)
    );
    assert_eq!(verifier.accepted_count(), 1);
}

