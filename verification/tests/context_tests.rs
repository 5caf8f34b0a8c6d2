use vole_arc::{
    CredentialContext, Error, PresentationBinding, PresentationChallenge, PresentationContext,
};

#[test]
fn scoped_context_frames_components() {
    let first = PresentationContext::scoped(b"ab", b"c", Some(b"d"));
    let second = PresentationContext::scoped(b"a", b"bc", Some(b"d"));
    assert_ne!(first, second);
    assert_ne!(
        PresentationContext::scoped(b"rp", b"login", Some(b"epoch-1")),
        PresentationContext::scoped(b"rp", b"login", Some(b"epoch-2"))
    );
    assert_ne!(
        PresentationContext::scoped(b"rp", b"login", None),
        PresentationContext::scoped(b"rp", b"login", Some(b""))
    );
}

#[test]
fn zero_limit_is_rejected() {
    assert_eq!(
        PresentationChallenge::new(
            CredentialContext::default(),
            PresentationContext::new(b"scope"),
            0,
            PresentationBinding::default(),
        ),
        Err(Error::InvalidPresentationLimit)
    );
}

#[test]
fn challenge_keeps_its_parts() {
    let credential = CredentialContext::new(b"class");
    let context = PresentationContext::new(b"bucket");
    let binding = PresentationBinding::new(b"request");
    let challenge = PresentationChallenge::new(credential, context, 5, binding).unwrap();
    assert_eq!(challenge.credential_context(), credential);
    assert_eq!(challenge.presentation_context(), context);
    assert_eq!(challenge.binding(), binding);
    assert_eq!(challenge.limit(), 5);
}

#[test]
fn contexts_are_domain_separated() {
    let data = b"same-data";
    assert_ne!(
        CredentialContext::new(data).digest(),
        PresentationContext::new(data).digest()
    );
    assert_ne!(
        PresentationContext::new(data).digest(),
        PresentationBinding::new(data).digest()
    );
    assert_eq!(CredentialContext::new(data), CredentialContext::new(data));
    assert_eq!(CredentialContext::default(), CredentialContext::new(b""));
}
