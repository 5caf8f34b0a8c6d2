//! Native Keccak-f[1600] and SHAKE256 with round-state access.

use vstd::prelude::*;
use vstd::bytes::{spec_u64_from_le_bytes, u64_from_le_bytes};

verus! {

/// SHAKE256's rate in bytes.
pub const RATE_BYTES: usize = 136;

/// Keccak-f[1600] round constants.
pub const RC: [u64; 24] = [
    0x0000_0000_0000_0001,
    0x0000_0000_0000_8082,
    0x8000_0000_0000_808a,
    0x8000_0000_8000_8000,
    0x0000_0000_0000_808b,
    0x0000_0000_8000_0001,
    0x8000_0000_8000_8081,
    0x8000_0000_0000_8009,
    0x0000_0000_0000_008a,
    0x0000_0000_0000_0088,
    0x0000_0000_8000_8009,
    0x0000_0000_8000_000a,
    0x0000_0000_8000_808b,
    0x8000_0000_0000_008b,
    0x8000_0000_0000_8089,
    0x8000_0000_0000_8003,
    0x8000_0000_0000_8002,
    0x8000_0000_0000_0080,
    0x0000_0000_0000_800a,
    0x8000_0000_8000_000a,
    0x8000_0000_8000_8081,
    0x8000_0000_0000_8080,
    0x0000_0000_8000_0001,
    0x8000_0000_8000_8008,
];

/// Keccak-f[1600] rho rotation offsets, indexed by `x + 5*y`.
pub const RHO: [u32; 25] = [
    0, 1, 62, 28, 27, 36, 44, 6, 55, 20, 3, 10, 43, 25, 39, 41, 45, 15, 21, 8, 18, 2, 61, 56, 14,
];

/// Every rho offset is a valid 64-bit rotation amount.
pub proof fn lemma_rho_bound()
    ensures
        forall|i: int| 0 <= i < 25 ==> #[trigger] RHO[i] < 64,
{
    assert forall|i: int| 0 <= i < 25 implies #[trigger] RHO[i] < 64 by {
        assert(RHO@ == seq![0u32, 1, 62, 28, 27, 36, 44, 6, 55, 20, 3, 10, 43, 25, 39, 41, 45, 15, 21, 8, 18, 2, 61, 56, 14]);
    }
}


/// A Keccak state of 25 little-endian 64-bit lanes.
pub type State = [u64; 25];

/// Rotate a lane left by `n` bits, for `n < 64`.
pub open spec fn rotl(x: u64, n: u32) -> u64 {
    if n == 0 {
        x
    } else {
        (x << n) | (x >> ((64 - n) as u32))
    }
}

fn rotate_left(x: u64, n: u32) -> (r: u64)
    requires
        n < 64,
    ensures
        r == rotl(x, n),
{
    if n == 0 {
        x
    } else {
        (x << n) | (x >> (64 - n))
    }
}

/// Parity of column `x` of a state.
pub open spec fn column(s: Seq<u64>, x: int) -> u64 {
    s[x] ^ s[x + 5] ^ s[x + 10] ^ s[x + 15] ^ s[x + 20]
}

/// Lane `i` after the theta step.
pub open spec fn theta_lane(s: Seq<u64>, i: int) -> u64 {
    let x = i % 5;
    s[i] ^ column(s, (x + 4) % 5) ^ rotl(column(s, (x + 1) % 5), 1)
}

/// The lane that the pi step moves to position `i` (pi sends `(x, y)` to
/// `(y, 2x + 3y mod 5)`).
pub open spec fn pi_source(i: int) -> int {
    let tx = i % 5;
    let ty = i / 5;
    (tx + 3 * ty) % 5 + 5 * tx
}

/// Lane `i` after the theta, rho, and pi steps.
pub open spec fn rho_pi_lane(s: Seq<u64>, i: int) -> u64 {
    rotl(theta_lane(s, pi_source(i)), RHO[pi_source(i)])
}

/// Lane `i` after the chi step.
pub open spec fn chi_lane(s: Seq<u64>, i: int) -> u64 {
    let x = i % 5;
    let y = i / 5;
    rho_pi_lane(s, i) ^ (!rho_pi_lane(s, (x + 1) % 5 + 5 * y) & rho_pi_lane(s, (x + 2) % 5 + 5 * y))
}

/// One Keccak-f[1600] round: theta, rho, pi, chi, then iota with `rc`.
pub open spec fn spec_round(s: Seq<u64>, rc: u64) -> Seq<u64> {
    Seq::new(25, |i: int| if i == 0 { chi_lane(s, i) ^ rc } else { chi_lane(s, i) })
}

/// The first `n` rounds of Keccak-f[1600].
pub open spec fn keccak_rounds(s: Seq<u64>, n: nat) -> Seq<u64>
    decreases n,
{
    if n == 0 {
        s
    } else {
        spec_round(keccak_rounds(s, (n - 1) as nat), RC[n - 1])
    }
}

/// Keccak-f[1600]: all 24 rounds.
pub open spec fn spec_keccak_f(s: Seq<u64>) -> Seq<u64> {
    keccak_rounds(s, 24)
}

proof fn lemma_pi_source_bound(i: int)
    requires
        0 <= i < 25,
    ensures
        0 <= pi_source(i) < 25,
{
}

/// Apply one Keccak-f[1600] round.
pub fn round(input: &State, round_constant: u64) -> (output: State)
    ensures
        output@ == spec_round(input@, round_constant),
{
    proof {
        lemma_rho_bound();
    }
    let mut columns = [0u64; 5];
    for x in 0..5
        invariant
            forall|j: int| 0 <= j < x ==> columns[j] == column(input@, j),
    {
        columns[x] = input[x] ^ input[x + 5] ^ input[x + 10] ^ input[x + 15] ^ input[x + 20];
    }
    let mut theta = [0u64; 25];
    for i in 0..25
        invariant
            forall|j: int| 0 <= j < 5 ==> columns[j] == column(input@, j),
            forall|j: int| 0 <= j < i ==> theta[j] == theta_lane(input@, j),
    {
        let x = i % 5;
        theta[i] = input[i] ^ columns[(x + 4) % 5] ^ rotate_left(columns[(x + 1) % 5], 1);
    }
    let mut permuted = [0u64; 25];
    for i in 0..25
        invariant
            forall|j: int| 0 <= j < 25 ==> theta[j] == theta_lane(input@, j),
            forall|j: int| 0 <= j < i ==> permuted[j] == rho_pi_lane(input@, j),
            forall|j: int| 0 <= j < 25 ==> #[trigger] RHO[j] < 64,
    {
        let source = (i % 5 + 3 * (i / 5)) % 5 + 5 * (i % 5);
        proof {
            lemma_pi_source_bound(i as int);
        }
        permuted[i] = rotate_left(theta[source], RHO[source]);
    }
    let mut output = [0u64; 25];
    for i in 0..25
        invariant
            forall|j: int| 0 <= j < 25 ==> permuted[j] == rho_pi_lane(input@, j),
            forall|j: int| 0 <= j < i ==> output[j] == chi_lane(input@, j),
    {
        let x = i % 5;
        let row = i - x;
        output[i] = permuted[i] ^ (!permuted[(x + 1) % 5 + row] & permuted[(x + 2) % 5 + row]);
    }
    output[0] = output[0] ^ round_constant;
    assert(output@ =~= spec_round(input@, round_constant));
    output
}


/// Apply Keccak-f[1600].
pub fn keccak_f(state: State) -> (output: State)
    ensures
        output@ == spec_keccak_f(state@),
{
    let mut current = state;
    for index in 0..24
        invariant
            current@ == keccak_rounds(state@, index as nat),
    {
        current = round(&current, RC[index]);
    }
    current
}

/// The state after XOR-ing one rate block into its first 17 lanes.
pub open spec fn spec_absorb(s: Seq<u64>, block: Seq<u8>) -> Seq<u64> {
    Seq::new(
        25,
        |i: int|
            if i < 17 {
                s[i] ^ spec_u64_from_le_bytes(block.subrange(8 * i, 8 * i + 8))
            } else {
                s[i]
            },
    )
}

/// XOR one SHAKE256 rate block into a state.
pub fn absorb_block(state: &mut State, block: &[u8; RATE_BYTES])
    ensures
        final(state)@ == spec_absorb(old(state)@, block@),
{
    let bytes = vstd::array::array_as_slice(block);
    for index in 0..17
        invariant
            bytes@ == block@,
            forall|j: int| 0 <= j < index ==> state[j] == #[trigger] spec_absorb(old(state)@, block@)[j],
            forall|j: int| index <= j < 25 ==> state[j] == old(state)[j],
    {
        let lane = vstd::slice::slice_subrange(bytes, 8 * index, 8 * index + 8);
        let value = u64_from_le_bytes(lane);
        state[index] = state[index] ^ value;
    }
    assert(state@ =~= spec_absorb(old(state)@, block@));
}

/// SHAKE256 padding of a message shorter than one rate block.
pub open spec fn spec_pad(message: Seq<u8>) -> Seq<u8> {
    Seq::new(
        RATE_BYTES as nat,
        |i: int|
            (if i < message.len() { message[i] } else { 0u8 }) ^ (if i == message.len() {
                0x1fu8
            } else {
                0u8
            }) ^ (if i == RATE_BYTES - 1 { 0x80u8 } else { 0u8 }),
    )
}

/// Pad a message shorter than one rate block as SHAKE256.
pub fn pad_single_block(message: &[u8]) -> (block: [u8; RATE_BYTES])
    requires
        message@.len() < RATE_BYTES,
    ensures
        block@ == spec_pad(message@),
{
    let mut block = [0u8; RATE_BYTES];
    let len = message.len();
    for index in 0..len
        invariant
            len == message@.len(),
            len < RATE_BYTES,
            forall|j: int| 0 <= j < index ==> block[j] == message@[j],
            forall|j: int| index <= j < RATE_BYTES ==> block[j] == 0,
    {
        block[index] = message[index];
    }
    block[len] = block[len] ^ 0x1f;
    block[RATE_BYTES - 1] = block[RATE_BYTES - 1] ^ 0x80;
    assert forall|i: int| 0 <= i < RATE_BYTES implies block[i] == #[trigger] spec_pad(message@)[i] by {
        let m: u8 = if i < len { message@[i] } else { 0u8 };
        assert(m ^ 0u8 == m) by (bit_vector);
        assert(m ^ 0u8 ^ 0u8 == m) by (bit_vector);
        assert(m ^ 0x1fu8 ^ 0u8 == m ^ 0x1fu8) by (bit_vector);
        assert(m ^ 0u8 ^ 0x80u8 == m ^ 0x80u8) by (bit_vector);
    }
    assert(block@ =~= spec_pad(message@));
    block
}

/// The all-zero state.
pub open spec fn zero_state() -> Seq<u64> {
    Seq::new(25, |i: int| 0u64)
}

/// The state after absorbing the first `n` full rate blocks of `message`.
pub open spec fn absorb_blocks(message: Seq<u8>, n: nat) -> Seq<u64>
    decreases n,
{
    if n == 0 {
        zero_state()
    } else {
        spec_keccak_f(
            spec_absorb(
                absorb_blocks(message, (n - 1) as nat),
                message.subrange(RATE_BYTES * (n - 1), RATE_BYTES * n),
            ),
        )
    }
}

/// The sponge state after absorbing and padding a whole message.
pub open spec fn sponge_state(message: Seq<u8>) -> Seq<u64> {
    let n = message.len() / (RATE_BYTES as nat);
    spec_keccak_f(
        spec_absorb(
            absorb_blocks(message, n),
            spec_pad(message.subrange(RATE_BYTES * n, message.len() as int)),
        ),
    )
}

/// Byte `k` of a little-endian lane.
pub open spec fn lane_byte(lane: u64, k: int) -> u8 {
    ((lane >> ((8 * k) as u64)) & 0xff) as u8
}

/// The first `RATE_BYTES` bytes of a state, little-endian lane by lane.
pub open spec fn rate_bytes(s: Seq<u64>) -> Seq<u8> {
    Seq::new(RATE_BYTES as nat, |i: int| lane_byte(s[i / 8], i % 8))
}

/// The first `n` bytes squeezed from a sponge state.
pub open spec fn squeeze(s: Seq<u64>, n: nat) -> Seq<u8>
    decreases n,
{
    if n <= RATE_BYTES {
        rate_bytes(s).take(n as int)
    } else {
        rate_bytes(s) + squeeze(spec_keccak_f(s), (n - RATE_BYTES) as nat)
    }
}

/// SHAKE256 with an `n`-byte output.
pub open spec fn spec_shake256(message: Seq<u8>, n: nat) -> Seq<u8> {
    squeeze(sponge_state(message), n)
}

fn copy_block(message: &[u8], offset: usize) -> (block: [u8; RATE_BYTES])
    requires
        offset + RATE_BYTES <= message@.len(),
    ensures
        block@ == message@.subrange(offset as int, offset + RATE_BYTES),
{
    let mut block = [0u8; RATE_BYTES];
    let len = message.len();
    for index in 0..RATE_BYTES
        invariant
            len == message@.len(),
            offset + RATE_BYTES <= message@.len(),
            forall|j: int| 0 <= j < index ==> block[j] == message@[offset + j],
    {
        block[index] = message[offset + index];
    }
    assert(block@ =~= message@.subrange(offset as int, offset + RATE_BYTES));
    block
}

fn state_byte(state: &State, index: usize) -> (byte: u8)
    requires
        index < RATE_BYTES,
    ensures
        byte == lane_byte(state@[(index / 8) as int], (index % 8) as int),
{
    let shift = (8 * (index % 8)) as u64;
    ((state[index / 8] >> shift) & 0xff) as u8
}

/// Compute SHAKE256 for arbitrary input and output lengths.
pub fn shake256(message: &[u8], output_len: usize) -> (output: Vec<u8>)
    ensures
        output@ == spec_shake256(message@, output_len as nat),
{
    let mut state = [0u64; 25];
    let blocks = message.len() / RATE_BYTES;
    assert(state@ =~= zero_state());
    let len = message.len();
    proof {
        assert(RATE_BYTES * (len / RATE_BYTES) <= len) by (nonlinear_arith);
    }
    for block_index in 0..blocks
        invariant
            len == message@.len(),
            blocks == message@.len() / (RATE_BYTES as nat),
            RATE_BYTES * blocks <= len,
            state@ == absorb_blocks(message@, block_index as nat),
    {
        proof {
            assert(RATE_BYTES * block_index + RATE_BYTES <= RATE_BYTES * blocks) by (nonlinear_arith)
                requires
                    block_index < blocks,
            ;
        }
        let block = copy_block(message, RATE_BYTES * block_index);
        absorb_block(&mut state, &block);
        state = keccak_f(state);
    }
    let remainder = vstd::slice::slice_subrange(message, RATE_BYTES * blocks, message.len());
    let mut final_block = pad_single_block(remainder);
    absorb_block(&mut state, &final_block);
    state = keccak_f(state);
    assert(state@ == sponge_state(message@));

    let ghost sponge = state@;
    let mut output: Vec<u8> = Vec::new();
    while output.len() < output_len
        invariant
            output@.len() <= output_len,
            output@ + squeeze(state@, (output_len - output@.len()) as nat) == squeeze(
                sponge,
                output_len as nat,
            ),
        decreases output_len - output@.len(),
    {
        let remaining = output_len - output.len();
        let take = if remaining < RATE_BYTES { remaining } else { RATE_BYTES };
        let ghost before = output@;
        for index in 0..take
            invariant
                take <= RATE_BYTES,
                output@ == before + rate_bytes(state@).take(index as int),
        {
            let byte = state_byte(&state, index);
            output.push(byte);
            assert(rate_bytes(state@).take(index + 1) =~= rate_bytes(state@).take(index as int).push(byte));
        }
        proof {
            if remaining <= RATE_BYTES {
                assert(squeeze(state@, remaining as nat) == rate_bytes(state@).take(remaining as int));
            } else {
                assert(rate_bytes(state@).take(RATE_BYTES as int) =~= rate_bytes(state@));
            }
        }
        if take == RATE_BYTES {
            let ghost prior = state@;
            state = keccak_f(state);
            proof {
                if remaining == RATE_BYTES {
                    assert(rate_bytes(prior).take(RATE_BYTES as int) =~= rate_bytes(prior));
                    assert(squeeze(state@, 0) =~= Seq::<u8>::empty());
                    assert(output@ + squeeze(state@, 0) =~= output@);
                } else {
                    assert(output@ + squeeze(state@, (output_len - output@.len()) as nat) =~= before + (rate_bytes(prior) + squeeze(state@, (remaining - RATE_BYTES) as nat)));
                }
            }
        } else {
            assert(squeeze(state@, 0) =~= Seq::<u8>::empty());
            assert(output@ + squeeze(state@, 0) =~= output@);
        }
    }
    crate::secret::wipe_lanes(&mut state);
    crate::secret::wipe_array(&mut final_block);
    output
}

/// Read one bit using the circuit's state layout.
pub fn state_bit(state: &State, index: usize) -> (bit: bool)
    requires
        index < 1600,
    ensures
        bit == ((state@[(index / 64) as int] >> ((index % 64) as u64)) & 1 == 1),
{
    (state[index / 64] >> ((index % 64) as u64)) & 1 == 1
}

} // verus!
