//! Canonical encodings for protocol and local-state artifacts.

use vstd::prelude::*;
use vstd::bytes::{spec_u32_from_le_bytes, spec_u32_to_le_bytes, spec_u64_to_le_bytes, u32_from_le_bytes, u32_to_le_bytes};

verus! {

/// The four envelope magic bytes, `b"VARC"`.
pub const MAGIC: [u8; 4] = [0x56, 0x41, 0x52, 0x43];

/// The only supported wire-format version.
pub const WIRE_VERSION: u8 = 1;

/// Largest individual artifact accepted by a canonical decoder.
pub const MAX_WIRE_BYTES: usize = 32 * 1024 * 1024;

/// Length of the envelope header.
pub const HEADER_BYTES: usize = 9;

/// Failure to decode or authenticate a canonical artifact.
#[derive(Debug, Clone, Copy, PartialEq, Eq, Structural)]
pub enum WireError {
    /// The byte string is truncated, non-canonical, or has trailing data.
    InvalidEncoding,
    /// The envelope describes a different artifact type.
    WrongArtifact,
    /// The envelope names a different MAYO parameter set.
    WrongParameterSet,
    /// Secret state belongs to a different issuer public key.
    WrongIssuer,
    /// The artifact exceeds [`MAX_WIRE_BYTES`].
    TooLarge,
    /// A decoded local credential failed cryptographic authentication.
    InvalidCredential,
    /// The wire-format version is unsupported.
    UnsupportedVersion,
}

/// The human-readable description of each wire error.
pub open spec fn wire_error_message(error: WireError) -> Seq<char> {
    match error {
        WireError::InvalidEncoding => "invalid canonical VOLE-ARC encoding"@,
        WireError::WrongArtifact => "wrong VOLE-ARC artifact type"@,
        WireError::WrongParameterSet => "wrong MAYO parameter set"@,
        WireError::WrongIssuer => "wrong VOLE-ARC issuer"@,
        WireError::TooLarge => "VOLE-ARC artifact exceeds the configured limit"@,
        WireError::InvalidCredential => "decoded credential is not authentic"@,
        WireError::UnsupportedVersion => "unsupported VOLE-ARC wire-format version"@,
    }
}

impl WireError {
    /// The human-readable description of this error.
    pub fn message(&self) -> (text: &'static str)
        ensures
            text@ == wire_error_message(*self),
    {
        match self {
            WireError::InvalidEncoding => "invalid canonical VOLE-ARC encoding",
            WireError::WrongArtifact => "wrong VOLE-ARC artifact type",
            WireError::WrongParameterSet => "wrong MAYO parameter set",
            WireError::WrongIssuer => "wrong VOLE-ARC issuer",
            WireError::TooLarge => "VOLE-ARC artifact exceeds the configured limit",
            WireError::InvalidCredential => "decoded credential is not authentic",
            WireError::UnsupportedVersion => "unsupported VOLE-ARC wire-format version",
        }
    }
}

/// The envelope header for an artifact type and parameter set.
pub open spec fn header_bytes(artifact: u8, parameter_set: u8) -> Seq<u8> {
    MAGIC@ + seq![WIRE_VERSION, artifact, parameter_set, 0u8, 0u8]
}

/// The little-endian `u32` length prefix followed by the bytes themselves.
pub open spec fn framed_bytes(bytes: Seq<u8>) -> Seq<u8> {
    spec_u32_to_le_bytes(bytes.len() as u32) + bytes
}

/// Append bytes to a buffer.
pub fn extend_bytes(out: &mut Vec<u8>, bytes: &[u8])
    ensures
        final(out)@ == old(out)@ + bytes@,
{
    let ghost start = out@;
    for index in 0..bytes.len()
        invariant
            out@ == start + bytes@.take(index as int),
    {
        out.push(bytes[index]);
        assert(bytes@.take(index + 1) =~= bytes@.take(index as int).push(bytes@[index as int]));
    }
    assert(bytes@.take(bytes@.len() as int) =~= bytes@);
}

/// Copy a byte string into a new vector.
pub fn copy_bytes(bytes: &[u8]) -> (copy: Vec<u8>)
    ensures
        copy@ == bytes@,
{
    let mut copy: Vec<u8> = Vec::new();
    extend_bytes(&mut copy, bytes);
    assert(copy@ =~= bytes@);
    copy
}

/// Whether two byte strings are equal.
pub fn bytes_eq(a: &[u8], b: &[u8]) -> (equal: bool)
    ensures
        equal == (a@ == b@),
{
    if a.len() != b.len() {
        return false;
    }
    for index in 0..a.len()
        invariant
            a@.len() == b@.len(),
            forall|j: int| 0 <= j < index ==> a@[j] == b@[j],
    {
        if a[index] != b[index] {
            return false;
        }
    }
    assert(a@ =~= b@);
    true
}

/// The little-endian bytes of a `u64`.
pub fn u64_le_bytes(x: u64) -> (bytes: [u8; 8])
    ensures
        bytes@ == spec_u64_to_le_bytes(x),
{
    proof {
        vstd::bytes::spec_u64_to_le_bytes_to_open(x);
    }
    let bytes = [
        (x & 0xff) as u8,
        ((x >> 8) & 0xff) as u8,
        ((x >> 16) & 0xff) as u8,
        ((x >> 24) & 0xff) as u8,
        ((x >> 32) & 0xff) as u8,
        ((x >> 40) & 0xff) as u8,
        ((x >> 48) & 0xff) as u8,
        ((x >> 56) & 0xff) as u8,
    ];
    assert(bytes@ =~= vstd::bytes::spec_u64_to_le_bytes_open(x));
    bytes
}

/// Whether two 32-byte digests are equal.
pub fn digests_eq(a: &[u8; 32], b: &[u8; 32]) -> (equal: bool)
    ensures
        equal == (a@ == b@),
{
    bytes_eq(vstd::array::array_as_slice(a), vstd::array::array_as_slice(b))
}

/// Append the envelope header.
pub fn header(out: &mut Vec<u8>, artifact: u8, parameter_set: u8)
    ensures
        final(out)@ == old(out)@ + header_bytes(artifact, parameter_set),
{
    let ghost start = out@;
    out.push(MAGIC[0]);
    out.push(MAGIC[1]);
    out.push(MAGIC[2]);
    out.push(MAGIC[3]);
    out.push(WIRE_VERSION);
    out.push(artifact);
    out.push(parameter_set);
    out.push(0);
    out.push(0);
    assert(out@ =~= start + header_bytes(artifact, parameter_set));
}

/// Append a `u32` length prefix and the bytes.
pub fn put_bytes(out: &mut Vec<u8>, bytes: &[u8])
    requires
        bytes@.len() <= u32::MAX,
    ensures
        final(out)@ == old(out)@ + framed_bytes(bytes@),
{
    let len = bytes.len() as u32;
    let prefix = u32_to_le_bytes(len);
    let ghost start = out@;
    extend_bytes(out, prefix.as_slice());
    extend_bytes(out, bytes);
    assert(out@ =~= start + framed_bytes(bytes@));
}

/// Nibble `i` packed two to a byte, low nibble first.
pub open spec fn packed_nibble_byte(values: Seq<u8>, j: int) -> u8 {
    if 2 * j + 1 < values.len() {
        values[2 * j] | ((values[2 * j + 1] << 4u8) as u8)
    } else {
        values[2 * j]
    }
}

/// Nibbles packed two to a byte, low nibble first.
pub open spec fn packed_nibbles(values: Seq<u8>) -> Seq<u8> {
    Seq::new((values.len() + 1) / 2, |j: int| packed_nibble_byte(values, j))
}

/// Every value is a nibble.
pub open spec fn all_nibbles(values: Seq<u8>) -> bool {
    forall|i: int| 0 <= i < values.len() ==> #[trigger] values[i] < 16
}

/// Pack GF(16) elements two to a byte, low nibble first.
pub fn pack_nibbles(values: &[u8]) -> (output: Vec<u8>)
    ensures
        output@ == packed_nibbles(values@),
{
    let mut output: Vec<u8> = Vec::new();
    let len = values.len();
    let byte_len = len / 2 + len % 2;
    for j in 0..byte_len
        invariant
            len == values@.len(),
            byte_len == (len + 1) / 2,
            output@ == Seq::new(j as nat, |k: int| packed_nibble_byte(values@, k)),
    {
        let low = values[2 * j];
        let byte = if 2 * j + 1 < len {
            low | (values[2 * j + 1] << 4)
        } else {
            low
        };
        output.push(byte);
        assert(output@ =~= Seq::new((j + 1) as nat, |k: int| packed_nibble_byte(values@, k)));
    }
    assert(output@ =~= packed_nibbles(values@));
    output
}

/// Nibbles unpacked from bytes, low nibble first.
pub open spec fn unpacked_nibbles(bytes: Seq<u8>, count: nat) -> Seq<u8> {
    Seq::new(count, |i: int| if i % 2 == 0 { bytes[i / 2] & 0x0f } else { bytes[i / 2] >> 4u8 })
}

/// A canonical nibble string of `count` nibbles: an odd count leaves the
/// high nibble of the last byte zero.
pub open spec fn canonical_nibbles(bytes: Seq<u8>, count: nat) -> bool {
    count % 2 == 1 && bytes.len() > 0 ==> bytes.last() & 0xf0 == 0
}

/// The outcome of checking an envelope header.
pub open spec fn header_check(input: Seq<u8>, artifact: u8, parameter_set: u8) -> Result<(), WireError> {
    if input.len() > MAX_WIRE_BYTES {
        Err(WireError::TooLarge)
    } else if input.len() < 4 || input.take(4) != MAGIC@ {
        Err(WireError::InvalidEncoding)
    } else if input.len() < 5 {
        Err(WireError::InvalidEncoding)
    } else if input[4] != WIRE_VERSION {
        Err(WireError::UnsupportedVersion)
    } else if input.len() < 9 {
        Err(WireError::InvalidEncoding)
    } else if input[5] != artifact {
        Err(WireError::WrongArtifact)
    } else if input[6] != parameter_set {
        Err(WireError::WrongParameterSet)
    } else if input[7] != 0 || input[8] != 0 {
        Err(WireError::InvalidEncoding)
    } else {
        Ok(())
    }
}

/// A cursor over one canonical artifact.
pub struct Decoder<'a> {
    input: &'a [u8],
    offset: usize,
}

impl<'a> Decoder<'a> {
    #[verifier::type_invariant]
    spec fn offset_in_bounds(self) -> bool {
        self.offset <= self.input@.len()
    }

    /// The whole artifact being decoded.
    pub closed spec fn bytes_in(self) -> Seq<u8> {
        self.input@
    }

    /// The number of bytes consumed so far.
    pub closed spec fn position(self) -> nat {
        self.offset as nat
    }

    /// The bytes not yet consumed.
    pub open spec fn rest(self) -> Seq<u8> {
        self.bytes_in().skip(self.position() as int)
    }

    /// Check the envelope header and position the cursor after it.
    pub fn new(input: &'a [u8], artifact: u8, parameter_set: u8) -> (result: Result<Self, WireError>)
        ensures
            match result {
                Ok(decoder) => header_check(input@, artifact, parameter_set) is Ok
                    && decoder.bytes_in() == input@ && decoder.position() == HEADER_BYTES,
                Err(error) => header_check(input@, artifact, parameter_set) == Err::<(), WireError>(
                    error,
                ),
            },
    {
        if input.len() > MAX_WIRE_BYTES {
            return Err(WireError::TooLarge);
        }
        let mut decoder = Decoder { input, offset: 0 };
        let magic = decoder.take(4)?;
        if magic[0] != MAGIC[0] || magic[1] != MAGIC[1] || magic[2] != MAGIC[2] || magic[3]
            != MAGIC[3] {
            proof {
                if input@.take(4) == MAGIC@ {
                    assert(input@.take(4)[0] == magic@[0]);
                    assert(input@.take(4)[1] == magic@[1]);
                    assert(input@.take(4)[2] == magic@[2]);
                    assert(input@.take(4)[3] == magic@[3]);
                }
            }
            return Err(WireError::InvalidEncoding);
        }
        assert(input@.take(4) =~= MAGIC@);
        if decoder.u8()? != WIRE_VERSION {
            return Err(WireError::UnsupportedVersion);
        }
        let actual = decoder.array::<4>()?;
        if actual[0] != artifact {
            return Err(WireError::WrongArtifact);
        }
        if actual[1] != parameter_set {
            return Err(WireError::WrongParameterSet);
        }
        if actual[2] != 0 || actual[3] != 0 {
            return Err(WireError::InvalidEncoding);
        }
        Ok(decoder)
    }

    /// Consume exactly `len` bytes.
    pub fn take(&mut self, len: usize) -> (result: Result<&'a [u8], WireError>)
        ensures
            final(self).bytes_in() == old(self).bytes_in(),
            old(self).position() + len <= old(self).bytes_in().len() ==> (result matches Ok(
                taken,
            ) && taken@ == old(self).bytes_in().subrange(
                old(self).position() as int,
                old(self).position() + len,
            ) && final(self).position() == old(self).position() + len),
            old(self).position() + len > old(self).bytes_in().len() ==> result == Err::<
                &'a [u8],
                WireError,
            >(WireError::InvalidEncoding) && final(self).position() == old(self).position(),
    {
        proof {
            use_type_invariant(&*self);
        }
        if len > self.input.len() - self.offset {
            return Err(WireError::InvalidEncoding);
        }
        let end = self.offset + len;
        let output = vstd::slice::slice_subrange(self.input, self.offset, end);
        self.offset = end;
        Ok(output)
    }

    /// Consume exactly `N` bytes as an array.
    pub fn array<const N: usize>(&mut self) -> (result: Result<[u8; N], WireError>)
        ensures
            final(self).bytes_in() == old(self).bytes_in(),
            old(self).position() + N <= old(self).bytes_in().len() ==> (result matches Ok(taken)
                && taken@ == old(self).bytes_in().subrange(
                old(self).position() as int,
                old(self).position() + N,
            ) && final(self).position() == old(self).position() + N),
            old(self).position() + N > old(self).bytes_in().len() ==> result == Err::<
                [u8; N],
                WireError,
            >(WireError::InvalidEncoding) && final(self).position() == old(self).position(),
    {
        let bytes = self.take(N)?;
        let mut output: [u8; N] = vstd::array::array_fill_for_copy_types(0u8);
        for index in 0..N
            invariant
                bytes@.len() == N,
                forall|j: int| 0 <= j < index ==> output@[j] == bytes@[j],
        {
            output[index] = bytes[index];
        }
        assert(output@ =~= bytes@);
        Ok(output)
    }

    /// Consume one byte.
    pub fn u8(&mut self) -> (result: Result<u8, WireError>)
        ensures
            final(self).bytes_in() == old(self).bytes_in(),
            old(self).position() < old(self).bytes_in().len() ==> result == Ok::<u8, WireError>(
                old(self).bytes_in()[old(self).position() as int],
            ) && final(self).position() == old(self).position() + 1,
            old(self).position() >= old(self).bytes_in().len() ==> result == Err::<u8, WireError>(
                WireError::InvalidEncoding,
            ) && final(self).position() == old(self).position(),
    {
        let bytes = self.array::<1>()?;
        Ok(bytes[0])
    }

    /// Consume a little-endian `u32`.
    pub fn u32(&mut self) -> (result: Result<u32, WireError>)
        ensures
            final(self).bytes_in() == old(self).bytes_in(),
            old(self).position() + 4 <= old(self).bytes_in().len() ==> result == Ok::<
                u32,
                WireError,
            >(
                spec_u32_from_le_bytes(
                    old(self).bytes_in().subrange(
                        old(self).position() as int,
                        old(self).position() + 4int,
                    ),
                ),
            ) && final(self).position() == old(self).position() + 4,
            old(self).position() + 4 > old(self).bytes_in().len() ==> result == Err::<
                u32,
                WireError,
            >(WireError::InvalidEncoding) && final(self).position() == old(self).position(),
    {
        let bytes = self.take(4)?;
        Ok(u32_from_le_bytes(bytes))
    }

    /// Consume a `u32` length prefix and that many bytes.
    pub fn bytes(&mut self) -> (result: Result<&'a [u8], WireError>)
        ensures
            final(self).bytes_in() == old(self).bytes_in(),
            ({
                let input = old(self).bytes_in();
                let pos = old(self).position() as int;
                let fits = pos + 4 <= input.len() && pos + 4 + spec_u32_from_le_bytes(
                    input.subrange(pos, pos + 4),
                ) <= input.len();
                let end = pos + 4 + spec_u32_from_le_bytes(input.subrange(pos, pos + 4));
                &&& fits ==> (result matches Ok(taken) && taken@ == input.subrange(pos + 4, end)
                    && final(self).position() == end)
                &&& !fits ==> result == Err::<&'a [u8], WireError>(WireError::InvalidEncoding)
            }),
    {
        let len = self.u32()? as usize;
        self.take(len)
    }

    /// Consume `count` packed nibbles.
    pub fn nibbles(&mut self, count: usize) -> (result: Result<Vec<u8>, WireError>)
        ensures
            final(self).bytes_in() == old(self).bytes_in(),
            ({
                let byte_len = (count as int + 1) / 2;
                let fits = count < usize::MAX && old(self).position() + byte_len <= old(
                    self,
                ).bytes_in().len();
                let bytes = old(self).bytes_in().subrange(
                    old(self).position() as int,
                    old(self).position() + byte_len,
                );
                &&& fits && canonical_nibbles(bytes, count as nat) ==> (result matches Ok(values)
                    && values@ == unpacked_nibbles(bytes, count as nat) && all_nibbles(values@)
                    && final(self).position() == old(self).position() + byte_len)
                &&& !(fits && canonical_nibbles(bytes, count as nat)) ==> result == Err::<
                    Vec<u8>,
                    WireError,
                >(WireError::InvalidEncoding)
            }),
    {
        if count == usize::MAX {
            proof {
                use_type_invariant(&*self);
            }
            return Err(WireError::InvalidEncoding);
        }
        let byte_len = (count + 1) / 2;
        let bytes = self.take(byte_len)?;
        if count % 2 == 1 && byte_len > 0 && bytes[byte_len - 1] & 0xf0 != 0 {
            return Err(WireError::InvalidEncoding);
        }
        let mut values: Vec<u8> = Vec::new();
        for index in 0..count
            invariant
                bytes@.len() == byte_len,
                byte_len == (count + 1) / 2,
                values@ == unpacked_nibbles(bytes@, index as nat),
        {
            let byte = bytes[index / 2];
            let value = if index % 2 == 0 { byte & 0x0f } else { byte >> 4 };
            values.push(value);
            assert(values@ =~= unpacked_nibbles(bytes@, (index + 1) as nat));
        }
        proof {
            lemma_unpacked_nibbles(bytes@, count as nat);
        }
        Ok(values)
    }

    /// Require that every byte was consumed.
    pub fn finish(self) -> (result: Result<(), WireError>)
        ensures
            result is Ok <==> self.position() == self.bytes_in().len(),
            result is Err ==> result == Err::<(), WireError>(WireError::InvalidEncoding),
    {
        if self.offset == self.input.len() {
            Ok(())
        } else {
            Err(WireError::InvalidEncoding)
        }
    }
}

/// The `n` bytes at `pos`, if the input holds them.
pub open spec fn fixed_at(input: Seq<u8>, pos: int, n: int) -> Option<Seq<u8>> {
    if 0 <= pos && 0 <= n && pos + n <= input.len() {
        Some(input.subrange(pos, pos + n))
    } else {
        None
    }
}

/// The little-endian `u32` at `pos`, if the input holds it.
pub open spec fn u32_at(input: Seq<u8>, pos: int) -> Option<u32> {
    match fixed_at(input, pos, 4) {
        Some(bytes) => Some(spec_u32_from_le_bytes(bytes)),
        None => None,
    }
}

/// The length-prefixed payload at `pos`, if the input holds it; the next
/// field starts `4 + payload.len()` bytes later.
pub open spec fn framed_at(input: Seq<u8>, pos: int) -> Option<Seq<u8>> {
    match u32_at(input, pos) {
        Some(len) => fixed_at(input, pos + 4, len as int),
        None => None,
    }
}

/// The `count` packed nibbles at `pos`, if the input holds them in
/// canonical form; they take `(count + 1) / 2` bytes.
pub open spec fn nibbles_at(input: Seq<u8>, pos: int, count: nat) -> Option<Seq<u8>> {
    match fixed_at(input, pos, ((count + 1) / 2) as int) {
        Some(bytes) => if canonical_nibbles(bytes, count) {
            Some(unpacked_nibbles(bytes, count))
        } else {
            None
        },
        None => None,
    }
}

/// A header written by [`header`] is accepted by [`Decoder::new`] for the
/// same artifact type and parameter set, whatever follows it, as long as
/// the whole artifact respects [`MAX_WIRE_BYTES`].
pub proof fn lemma_header_accepted(artifact: u8, parameter_set: u8, rest: Seq<u8>)
    requires
        header_bytes(artifact, parameter_set).len() + rest.len() <= MAX_WIRE_BYTES,
    ensures
        header_check(header_bytes(artifact, parameter_set) + rest, artifact, parameter_set) is Ok,
{
    let input = header_bytes(artifact, parameter_set) + rest;
    assert(input.take(4) =~= MAGIC@);
}

/// A header written for one artifact type or parameter set is refused,
/// with the matching error, when another one is expected.
pub proof fn lemma_header_mismatch(
    artifact: u8,
    parameter_set: u8,
    expected_artifact: u8,
    expected_parameter_set: u8,
    rest: Seq<u8>,
)
    requires
        header_bytes(artifact, parameter_set).len() + rest.len() <= MAX_WIRE_BYTES,
    ensures
        artifact != expected_artifact ==> header_check(
            header_bytes(artifact, parameter_set) + rest,
            expected_artifact,
            expected_parameter_set,
        ) == Err::<(), WireError>(WireError::WrongArtifact),
        artifact == expected_artifact && parameter_set != expected_parameter_set ==> header_check(
            header_bytes(artifact, parameter_set) + rest,
            expected_artifact,
            expected_parameter_set,
        ) == Err::<(), WireError>(WireError::WrongParameterSet),
{
    let input = header_bytes(artifact, parameter_set) + rest;
    assert(input.take(4) =~= MAGIC@);
}

/// Bytes framed by [`put_bytes`] are read back by [`Decoder::bytes`]:
/// wherever the framing starts, the length prefix fits and the payload
/// follows it exactly.
pub proof fn lemma_framed_roundtrip(prefix: Seq<u8>, payload: Seq<u8>, suffix: Seq<u8>)
    requires
        payload.len() <= u32::MAX,
    ensures
        ({
            let input = prefix + framed_bytes(payload) + suffix;
            let pos = prefix.len() as int;
            &&& spec_u32_from_le_bytes(input.subrange(pos, pos + 4)) == payload.len()
            &&& pos + 4 + payload.len() <= input.len()
            &&& input.subrange(pos + 4, pos + 4 + payload.len()) == payload
        }),
{
    vstd::bytes::lemma_auto_spec_u32_to_from_le_bytes();
    let input = prefix + framed_bytes(payload) + suffix;
    let pos = prefix.len() as int;
    assert(input.subrange(pos, pos + 4) =~= spec_u32_to_le_bytes(payload.len() as u32));
    assert(input.subrange(pos + 4, pos + 4 + payload.len()) =~= payload);
}

proof fn lemma_nibble_pair(low: u8, high: u8)
    by (bit_vector)
    requires
        low < 16,
        high < 16,
    ensures
        (low | ((high << 4u8) as u8)) & 0x0f == low,
        (low | ((high << 4u8) as u8)) >> 4u8 == high,
        low & 0x0f == low,
        low & 0xf0 == 0,
{
}

proof fn lemma_unpack_at(values: Seq<u8>, i: int)
    requires
        all_nibbles(values),
        0 <= i < values.len(),
    ensures
        unpacked_nibbles(packed_nibbles(values), values.len())[i] == values[i],
{
    let j = i / 2;
    let low = values[2 * j];
    if 2 * j + 1 < values.len() {
        lemma_nibble_pair(low, values[2 * j + 1]);
    } else {
        lemma_nibble_pair(low, 0);
    }
}

/// Packing nibbles and unpacking the same count gives them back, and the
/// packed form is canonical.
pub proof fn lemma_nibbles_roundtrip(values: Seq<u8>)
    requires
        all_nibbles(values),
    ensures
        packed_nibbles(values).len() == (values.len() + 1) / 2,
        unpacked_nibbles(packed_nibbles(values), values.len()) == values,
        canonical_nibbles(packed_nibbles(values), values.len()),
{
    let packed = packed_nibbles(values);
    assert forall|i: int| 0 <= i < values.len() implies #[trigger] unpacked_nibbles(
        packed,
        values.len(),
    )[i] == values[i] by {
        lemma_unpack_at(values, i);
    }
    assert(unpacked_nibbles(packed, values.len()) =~= values);
    lemma_packed_canonical(values);
}

proof fn lemma_packed_canonical(values: Seq<u8>)
    requires
        all_nibbles(values),
    ensures
        canonical_nibbles(packed_nibbles(values), values.len()),
{
    if values.len() % 2 == 1 {
        let packed = packed_nibbles(values);
        let j = (values.len() - 1) / 2;
        assert(j == packed.len() - 1);
        assert(packed[j] == packed_nibble_byte(values, j));
        let last = values[2 * j];
        assert(last < 16);
        lemma_nibble_pair(last, 0);
    }
}

/// Unpacked nibbles are GF(16) elements.
pub proof fn lemma_unpacked_nibbles(bytes: Seq<u8>, count: nat)
    ensures
        all_nibbles(unpacked_nibbles(bytes, count)),
{
    assert forall|i: int| 0 <= i < count implies #[trigger] unpacked_nibbles(bytes, count)[i] < 16 by {
        let b = bytes[i / 2];
        assert(b & 0x0f < 16 && b >> 4u8 < 16) by (bit_vector);
    }
}

proof fn lemma_byte_split(b: u8)
    by (bit_vector)
    ensures
        (b & 0x0f) | (((b >> 4u8) << 4u8) as u8) == b,
        b & 0xf0 == 0 ==> b & 0x0f == b,
{
}

/// Unpacking canonical bytes and packing the nibbles again gives the
/// bytes back.
pub proof fn lemma_nibbles_repack(bytes: Seq<u8>, count: nat)
    requires
        bytes.len() == (count + 1) / 2,
        canonical_nibbles(bytes, count),
    ensures
        packed_nibbles(unpacked_nibbles(bytes, count)) == bytes,
{
    let values = unpacked_nibbles(bytes, count);
    assert forall|j: int| 0 <= j < bytes.len() implies #[trigger] packed_nibbles(values)[j] == bytes[j] by {
        lemma_byte_split(bytes[j]);
        if 2 * j + 1 < count {
            assert(values[2 * j] == bytes[j] & 0x0f);
            assert(values[2 * j + 1] == bytes[j] >> 4u8);
        } else {
            assert(j == bytes.len() - 1);
        }
    }
    assert(packed_nibbles(values) =~= bytes);
}

/// The first eight input bytes, zero-padded, as a little-endian number
/// (zero where it does not fit a `usize`).
pub open spec fn mutation_selector(input: Seq<u8>) -> usize {
    let prefix = Seq::new(8, |i: int| if i < input.len() { input[i] } else { 0u8 });
    let value = vstd::bytes::spec_u64_from_le_bytes(prefix);
    if value <= usize::MAX {
        value as usize
    } else {
        0
    }
}

/// XOR `input[i] | 1` into byte `(offset + i) % bytes.len()` for each of
/// the first `n` input bytes, in order.
pub open spec fn xor_mutation(bytes: Seq<u8>, input: Seq<u8>, offset: int, n: nat) -> Seq<u8>
    decreases n,
{
    if n == 0 {
        bytes
    } else {
        let before = xor_mutation(bytes, input, offset, (n - 1) as nat);
        let destination = (offset + n - 1) % (bytes.len() as int);
        before.update(destination, before[destination] ^ (input[n - 1] | 1))
    }
}

/// A fuzzer mutation of a valid artifact: an empty input keeps it; the
/// first input byte modulo four chooses between XOR-ing the input in at an
/// offset, truncating, and appending the input.
pub open spec fn spec_mutate(base: Seq<u8>, input: Seq<u8>) -> Seq<u8> {
    if input.len() == 0 {
        base
    } else {
        let selector = mutation_selector(input) as int;
        let mode = input[0] % 4;
        if mode == 0 || mode == 3 {
            xor_mutation(base, input, selector % (base.len() as int), input.len())
        } else if mode == 1 {
            base.take(selector % (base.len() as int))
        } else {
            base + input
        }
    }
}

/// Derive a structurally related artifact from a valid one and fuzzer
/// input.
pub fn mutate_valid(base: &[u8], input: &[u8]) -> (bytes: Vec<u8>)
    requires
        input@.len() > 0 && input@[0] % 4 != 2 ==> base@.len() > 0,
    ensures
        bytes@ == spec_mutate(base@, input@),
{
    let mut bytes = copy_bytes(base);
    if input.len() == 0 {
        return bytes;
    }
    let mut prefix = [0u8; 8];
    let prefix_len = if input.len() < 8 { input.len() } else { 8 };
    for index in 0..prefix_len
        invariant
            prefix_len <= 8,
            prefix_len <= input@.len(),
            forall|j: int| 0 <= j < index ==> prefix@[j] == input@[j],
            forall|j: int| index <= j < 8 ==> prefix@[j] == 0,
    {
        prefix[index] = input[index];
    }
    assert(prefix@ =~= Seq::new(8, |i: int| if i < input@.len() { input@[i] } else { 0u8 }));
    let value = vstd::bytes::u64_from_le_bytes(vstd::array::array_as_slice(&prefix));
    let selector: usize = if value <= usize::MAX as u64 { value as usize } else { 0 };
    let mode = input[0] % 4;
    if mode == 0 || mode == 3 {
        let len = bytes.len();
        let offset = selector % len;
        for index in 0..input.len()
            invariant
                len == base@.len(),
                len > 0,
                offset < len,
                bytes@.len() == len,
                bytes@ == xor_mutation(base@, input@, offset as int, index as nat),
        {
            let destination = ((offset as u128 + index as u128) % len as u128) as usize;
            assert(destination == (offset + index) % (len as int));
            let value = input[index];
            bytes.set(destination, bytes[destination] ^ (value | 1));
        }
    } else if mode == 1 {
        let len = selector % bytes.len();
        bytes.truncate(len);
    } else {
        extend_bytes(&mut bytes, input);
    }
    bytes
}

/// The envelope header: the magic `VARC`, then the format version, the
/// artifact type, the parameter set, and two zero bytes.
pub proof fn lemma_header_layout(artifact: u8, parameter_set: u8)
    ensures
        header_bytes(artifact, parameter_set).len() == 9,
        header_bytes(artifact, parameter_set).subrange(0, 4) == seq![0x56u8, 0x41u8, 0x52u8, 0x43u8],
        header_bytes(artifact, parameter_set)[4] == 1,
        header_bytes(artifact, parameter_set)[5] == artifact,
        header_bytes(artifact, parameter_set)[6] == parameter_set,
        header_bytes(artifact, parameter_set)[7] == 0,
        header_bytes(artifact, parameter_set)[8] == 0,
{
    assert(header_bytes(artifact, parameter_set).subrange(0, 4) =~= seq![0x56u8, 0x41u8, 0x52u8, 0x43u8]);
}

proof fn lemma_nibble_pair_value(low: u8, high: u8)
    by (bit_vector)
    requires
        low < 16,
        high < 16,
    ensures
        (low | ((high << 4u8) as u8)) == low + high * 16,
{
}

proof fn lemma_byte_halves(b: u8)
    by (bit_vector)
    ensures
        b & 0x0f == b % 16,
        b >> 4u8 == b / 16,
{
}

/// Packing puts the earlier nibble in the low half of each byte: byte `j`
/// is `values[2j] + 16 * values[2j + 1]`, and the last byte of an odd
/// count holds its nibble alone.
pub proof fn lemma_packed_values(values: Seq<u8>)
    requires
        all_nibbles(values),
    ensures
        packed_nibbles(values).len() == (values.len() + 1) / 2,
        forall|j: int|
            0 <= j < packed_nibbles(values).len() ==> #[trigger] packed_nibbles(values)[j] as int == values[2
                * j] as int + 16 * (if 2 * j + 1 < values.len() {
                values[2 * j + 1] as int
            } else {
                0
            }),
{
    assert forall|j: int| 0 <= j < packed_nibbles(values).len() implies #[trigger] packed_nibbles(values)[j] as int
        == values[2 * j] as int + 16 * (if 2 * j + 1 < values.len() {
        values[2 * j + 1] as int
    } else {
        0
    }) by {
        assert(values[2 * j] < 16);
        if 2 * j + 1 < values.len() {
            assert(values[2 * j + 1] < 16);
            lemma_nibble_pair_value(values[2 * j], values[2 * j + 1]);
        }
    }
}

/// Unpacking reads the low half of each byte first: nibble `i` is byte
/// `i / 2` modulo 16 for even `i`, and that byte divided by 16 for odd
/// `i`.
pub proof fn lemma_unpacked_values(bytes: Seq<u8>, count: nat)
    ensures
        unpacked_nibbles(bytes, count).len() == count,
        forall|i: int|
            0 <= i < count ==> #[trigger] unpacked_nibbles(bytes, count)[i] == if i % 2 == 0 {
                bytes[i / 2] % 16
            } else {
                bytes[i / 2] / 16
            },
{
    assert forall|i: int| 0 <= i < count implies #[trigger] unpacked_nibbles(bytes, count)[i] == if i % 2
        == 0 {
        bytes[i / 2] % 16
    } else {
        bytes[i / 2] / 16
    } by {
        lemma_byte_halves(bytes[i / 2]);
    }
}

} // verus!
