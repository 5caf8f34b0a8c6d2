//! Domain-separated, length-framed SHAKE256 digests computed by `sha3`.

use vstd::prelude::*;
use vstd::bytes::{spec_u64_to_le_bytes, u64_to_le_bytes};
use crate::wire::extend_bytes;

verus! {

/// The 32-byte SHAKE256 output that the `sha3` crate computes for an input.
pub uninterp spec fn sha3_shake256_32(input: Seq<u8>) -> Seq<u8>;

/// `sha3::Shake256`: absorb `input`, finalize, and read 32 output bytes.
///
/// The contract only names the output as a function of the input; what
/// that function is (FIPS 202 SHAKE256) is not stated.
#[verifier::external_body]
pub(crate) fn shake256_32(input: &[u8]) -> (digest: [u8; 32])
    ensures
        digest@ == sha3_shake256_32(input@),
{
    let mut hash = <sha3::Shake256 as core::default::Default>::default();
    sha3::digest::Update::update(&mut hash, input);
    let mut reader = sha3::digest::ExtendableOutput::finalize_xof(hash);
    let mut output = [0u8; 32];
    sha3::digest::XofReader::read(&mut reader, &mut output);
    output
}

/// One component: its length as a little-endian `u64`, then its bytes.
pub open spec fn frame(component: Seq<u8>) -> Seq<u8> {
    spec_u64_to_le_bytes(component.len() as u64) + component
}

/// Components framed one after another.
pub open spec fn framed_components(components: Seq<Seq<u8>>) -> Seq<u8>
    decreases components.len(),
{
    if components.len() == 0 {
        Seq::empty()
    } else {
        frame(components[0]) + framed_components(components.drop_first())
    }
}

/// A domain label followed by framed components.
pub open spec fn framed_message(domain: Seq<u8>, components: Seq<Seq<u8>>) -> Seq<u8> {
    domain + framed_components(components)
}

/// Every component's length fits the `u64` length prefix.
pub open spec fn lengths_fit(components: Seq<Seq<u8>>) -> bool {
    forall|i: int| 0 <= i < components.len() ==> #[trigger] components[i].len() <= u64::MAX
}

proof fn lemma_framed_push(components: Seq<Seq<u8>>, last: Seq<u8>)
    ensures
        framed_components(components.push(last)) == framed_components(components) + frame(last),
    decreases components.len(),
{
    if components.len() == 0 {
        assert(components.push(last).drop_first() =~= Seq::<Seq<u8>>::empty());
        assert(framed_components(Seq::<Seq<u8>>::empty()) =~= Seq::<u8>::empty());
        assert(framed_components(components.push(last)) =~= frame(last));
    } else {
        assert(components.push(last).drop_first() =~= components.drop_first().push(last));
        lemma_framed_push(components.drop_first(), last);
        assert(framed_components(components.push(last)) =~= framed_components(components) + frame(
            last,
        ));
    }
}

/// The framing is unambiguous: two component lists with the same framed
/// bytes are the same list.
pub proof fn lemma_framing_injective(a: Seq<Seq<u8>>, b: Seq<Seq<u8>>)
    requires
        lengths_fit(a),
        lengths_fit(b),
        framed_components(a) == framed_components(b),
    ensures
        a == b,
    decreases a.len(),
{
    vstd::bytes::lemma_auto_spec_u64_to_from_le_bytes();
    if a.len() == 0 {
        if b.len() > 0 {
            assert(framed_components(b).len() >= 8);
        }
        assert(a =~= b);
    } else {
        if b.len() == 0 {
            assert(framed_components(a).len() >= 8);
        }
        assert(a[0].len() <= u64::MAX);
        assert(b[0].len() <= u64::MAX);
        let fa = framed_components(a);
        assert(fa.take(8) =~= spec_u64_to_le_bytes(a[0].len() as u64));
        assert(fa.take(8) =~= spec_u64_to_le_bytes(b[0].len() as u64));
        assert(a[0].len() == b[0].len());
        let n = a[0].len() as int;
        assert(fa.subrange(8, 8 + n) =~= a[0]);
        assert(fa.subrange(8, 8 + n) =~= b[0]);
        assert(fa.skip(8 + n) =~= framed_components(a.drop_first()));
        assert(fa.skip(8 + n) =~= framed_components(b.drop_first()));
        assert forall|i: int| 0 <= i < a.drop_first().len() implies #[trigger] a.drop_first()[i].len()
            <= u64::MAX by {
            assert(a.drop_first()[i] == a[i + 1]);
        }
        assert forall|i: int| 0 <= i < b.drop_first().len() implies #[trigger] b.drop_first()[i].len()
            <= u64::MAX by {
            assert(b.drop_first()[i] == b[i + 1]);
        }
        lemma_framing_injective(a.drop_first(), b.drop_first());
        assert(a.len() == b.len());
        assert forall|i: int| 0 <= i < a.len() implies a[i] == b[i] by {
            if i > 0 {
                assert(a[i] == a.drop_first()[i - 1]);
                assert(b[i] == b.drop_first()[i - 1]);
            }
        }
        assert(a =~= b);
    }
}

/// The views of borrowed components.
pub open spec fn component_views(components: Seq<&[u8]>) -> Seq<Seq<u8>> {
    components.map_values(|c: &[u8]| c@)
}

/// Hash a domain label and length-framed components.
pub fn hash_framed(domain: &[u8], components: &[&[u8]]) -> (digest: [u8; 32])
    ensures
        digest@ == sha3_shake256_32(framed_message(domain@, component_views(components@))),
{
    let mut message: Vec<u8> = Vec::new();
    extend_bytes(&mut message, domain);
    let ghost views = component_views(components@);
    assert(views.take(0) =~= Seq::<Seq<u8>>::empty());
    for index in 0..components.len()
        invariant
            views == component_views(components@),
            message@ == domain@ + framed_components(views.take(index as int)),
    {
        let component = components[index];
        let prefix = u64_to_le_bytes(component.len() as u64);
        extend_bytes(&mut message, prefix.as_slice());
        extend_bytes(&mut message, component);
        proof {
            assert(views.take(index + 1) =~= views.take(index as int).push(component@));
            lemma_framed_push(views.take(index as int), component@);
        }
        assert(message@ =~= domain@ + framed_components(views.take(index + 1)));
    }
    assert(views.take(components@.len() as int) =~= views);
    shake256_32(message.as_slice())
}

} // verus!
