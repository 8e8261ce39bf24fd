//! PRNG: xoshiro256++ seeded via splitmix64, with FNV-1a domain separation.
//! Owned implementation so the bit stream is pinned by this crate, not by an
//! outside crate's release history.

use vstd::prelude::*;
use vstd::string::StringSliceAdditionalSpecFns;

verus! {

/// splitmix64 increment (the golden-ratio gamma).
pub const SPLITMIX_GAMMA: u64 = 0x9E37_79B9_7F4A_7C15;

/// FNV-1a 64-bit offset basis.
pub const FNV_OFFSET: u64 = 0xcbf2_9ce4_8422_2325;

/// FNV-1a 64-bit prime.
pub const FNV_PRIME: u64 = 0x0000_0100_0000_01B3;

/// Addition modulo 2^64.
pub open spec fn wadd(x: u64, y: u64) -> u64 {
    ((x as nat + y as nat) % 0x1_0000_0000_0000_0000nat) as u64
}

/// Multiplication modulo 2^64.
pub open spec fn wmul(x: u64, y: u64) -> u64 {
    ((x as nat * y as nat) % 0x1_0000_0000_0000_0000nat) as u64
}

/// Left rotation of a 64-bit word by `k` bits, 0 < k < 64.
pub open spec fn rotl(x: u64, k: u64) -> u64 {
    (x << k) | (x >> (64 - k) as u64)
}

/// The splitmix64 output function applied to a state word.
pub open spec fn splitmix_mix(z: u64) -> u64 {
    let z1 = wmul(z ^ (z >> 30u64), 0xBF58_476D_1CE4_E5B9);
    let z2 = wmul(z1 ^ (z1 >> 27u64), 0x94D0_49BB_1331_11EB);
    z2 ^ (z2 >> 31u64)
}

/// The `k`-th splitmix64 output (k >= 1) of a generator started at `seed`:
/// the state after k increments is `seed + k * gamma` modulo 2^64.
pub open spec fn splitmix_at(seed: u64, k: nat) -> u64 {
    splitmix_mix(((seed as nat + k * SPLITMIX_GAMMA as nat) % 0x1_0000_0000_0000_0000nat) as u64)
}

fn rotate_left(x: u64, k: u64) -> (r: u64)
    requires
        0 < k < 64,
    ensures
        r == rotl(x, k),
{
    (x << k) | (x >> (64 - k))
}

/// One splitmix64 step: advances the state by gamma and returns the mixed
/// new state.
pub fn splitmix64(state: &mut u64) -> (out: u64)
    ensures
        *final(state) == wadd(*old(state), SPLITMIX_GAMMA),
        out == splitmix_mix(*final(state)),
{
    *state = state.wrapping_add(SPLITMIX_GAMMA);
    let z0 = *state;
    let z1 = (z0 ^ (z0 >> 30)).wrapping_mul(0xBF58_476D_1CE4_E5B9);
    let z2 = (z1 ^ (z1 >> 27)).wrapping_mul(0x94D0_49BB_1331_11EB);
    z2 ^ (z2 >> 31)
}


/// The initial xoshiro state for `seed`: the first four splitmix64 outputs.
pub open spec fn seeded_state(seed: u64) -> Seq<u64> {
    seq![splitmix_at(seed, 1), splitmix_at(seed, 2), splitmix_at(seed, 3), splitmix_at(seed, 4)]
}

/// FNV-1a (64-bit) hash of a byte string.
pub open spec fn fnv1a(bytes: Seq<u8>) -> u64
    decreases bytes.len(),
{
    if bytes.len() == 0 {
        FNV_OFFSET
    } else {
        wmul(fnv1a(bytes.drop_last()) ^ (bytes.last() as u64), FNV_PRIME)
    }
}

/// FNV-1a folds every byte in turn: the hash of the empty string is the
/// offset basis, and appending a byte xors it in and multiplies by the FNV
/// prime, for strings of any length.
pub proof fn lemma_fnv1a_folds_every_byte(bytes: Seq<u8>, b: u8)
    ensures
        fnv1a(Seq::<u8>::empty()) == FNV_OFFSET,
        fnv1a(bytes.push(b)) == wmul(fnv1a(bytes) ^ (b as u64), FNV_PRIME),
{
    assert(bytes.push(b).drop_last() =~= bytes);
}

/// The xoshiro256++ output for state `s`.
pub open spec fn xoshiro_output(s: Seq<u64>) -> u64 {
    wadd(rotl(wadd(s[0], s[3]), 23), s[0])
}

/// The xoshiro256++ state transition.
pub open spec fn xoshiro_step(s: Seq<u64>) -> Seq<u64> {
    let t = s[1] << 17u64;
    let s2 = s[2] ^ s[0];
    let s3 = s[3] ^ s[1];
    let s1 = s[1] ^ s2;
    let s0 = s[0] ^ s3;
    seq![s0, s1, s2 ^ t, rotl(s3, 45)]
}

/// The state after `n` draws from state `s`.
pub open spec fn xoshiro_advance(s: Seq<u64>, n: nat) -> Seq<u64>
    decreases n,
{
    if n == 0 {
        s
    } else {
        xoshiro_step(xoshiro_advance(s, (n - 1) as nat))
    }
}

/// The first `n` outputs drawn from state `s`.
pub open spec fn xoshiro_stream(s: Seq<u64>, n: nat) -> Seq<u64>
    decreases n,
{
    if n == 0 {
        Seq::empty()
    } else {
        xoshiro_stream(s, (n - 1) as nat).push(xoshiro_output(xoshiro_advance(s, (n - 1) as nat)))
    }
}

/// Advancing `m` draws and then `n` more is advancing `m + n` draws.
pub proof fn lemma_advance_add(s: Seq<u64>, m: nat, n: nat)
    ensures
        xoshiro_advance(s, m + n) == xoshiro_advance(xoshiro_advance(s, m), n),
    decreases n,
{
    if n > 0 {
        lemma_advance_add(s, m, (n - 1) as nat);
        assert((m + n - 1) as nat == m + (n - 1) as nat);
    }
}

/// A stream can be split anywhere: the first `m + n` draws are the first
/// `m` draws followed by the first `n` draws of the generator left behind
/// by them. Drawing in batches of any sizes gives the same values as
/// drawing one at a time.
pub proof fn lemma_stream_split(s: Seq<u64>, m: nat, n: nat)
    ensures
        xoshiro_stream(s, m + n) == xoshiro_stream(s, m) + xoshiro_stream(xoshiro_advance(s, m), n),
    decreases n,
{
    if n == 0 {
        assert(xoshiro_stream(s, m) + xoshiro_stream(xoshiro_advance(s, m), 0) =~= xoshiro_stream(s, m));
    } else {
        let k = (n - 1) as nat;
        lemma_stream_split(s, m, k);
        lemma_advance_add(s, m, k);
        assert((m + n - 1) as nat == m + k);
        assert(xoshiro_stream(s, m + n) == xoshiro_stream(s, m + k).push(
            xoshiro_output(xoshiro_advance(s, m + k)),
        ));
        assert(xoshiro_stream(s, m + n) =~= xoshiro_stream(s, m) + xoshiro_stream(
            xoshiro_advance(s, m),
            n,
        ));
    }
}

/// Deterministic generator: xoshiro256++ over a four-word state.
#[derive(Clone, Debug, PartialEq, Eq)]
pub struct Rng {
    s: [u64; 4],
}

impl View for Rng {
    type V = Seq<u64>;

    closed spec fn view(&self) -> Seq<u64> {
        self.s@
    }
}

impl Rng {
    /// A generator whose state is the first four splitmix64 outputs from `seed`.
    pub fn from_seed(seed: u64) -> (r: Rng)
        ensures
            r@ == seeded_state(seed),
    {
        let mut sm = seed;
        let a = splitmix64(&mut sm);
        let b = splitmix64(&mut sm);
        let c = splitmix64(&mut sm);
        let d = splitmix64(&mut sm);
        let r = Rng { s: [a, b, c, d] };
        assert(r@ =~= seeded_state(seed)) by {
            let g = SPLITMIX_GAMMA as nat;
            let m = 0x1_0000_0000_0000_0000nat;
            assert(((seed as nat + 1 * g) % m) as u64 == wadd(seed, SPLITMIX_GAMMA));
            assert(((seed as nat + 2 * g) % m) as u64 == wadd(wadd(seed, SPLITMIX_GAMMA), SPLITMIX_GAMMA)) by {
                vstd::arithmetic::div_mod::lemma_add_mod_noop(seed as int + g as int, g as int, m as int);
            }
            assert(((seed as nat + 3 * g) % m) as u64 == wadd(wadd(wadd(seed, SPLITMIX_GAMMA), SPLITMIX_GAMMA), SPLITMIX_GAMMA)) by {
                vstd::arithmetic::div_mod::lemma_add_mod_noop(seed as int + g as int, g as int, m as int);
                vstd::arithmetic::div_mod::lemma_add_mod_noop(seed as int + 2 * g as int, g as int, m as int);
            }
            assert(((seed as nat + 4 * g) % m) as u64 == wadd(wadd(wadd(wadd(seed, SPLITMIX_GAMMA), SPLITMIX_GAMMA), SPLITMIX_GAMMA), SPLITMIX_GAMMA)) by {
                vstd::arithmetic::div_mod::lemma_add_mod_noop(seed as int + g as int, g as int, m as int);
                vstd::arithmetic::div_mod::lemma_add_mod_noop(seed as int + 2 * g as int, g as int, m as int);
                vstd::arithmetic::div_mod::lemma_add_mod_noop(seed as int + 3 * g as int, g as int, m as int);
            }
        }
        r
    }

    /// A generator resumed from a saved four-word state.
    pub fn from_state(s: [u64; 4]) -> (r: Rng)
        ensures
            r@ == s@,
    {
        Rng { s }
    }

    /// The four-word state, for saving a generator mid-stream.
    pub fn state(&self) -> (s: [u64; 4])
        ensures
            s@ == self@,
    {
        self.s
    }

    /// Domain-separated substream: same episode seed, independent streams per
    /// subsystem ("driver", "env", ...), so adding a consumer never perturbs
    /// the draws seen by existing ones.
    pub fn substream(seed: u64, domain: &str) -> (r: Rng)
        ensures
            r@ == seeded_state(seed ^ fnv1a(domain.spec_bytes())),
    {
        let bytes = domain.as_bytes();
        let mut h: u64 = FNV_OFFSET;
        let mut i: usize = 0;
        while i < bytes.len()
            invariant
                0 <= i <= bytes@.len(),
                bytes@ == domain.spec_bytes(),
                h == fnv1a(bytes@.subrange(0, i as int)),
            decreases bytes@.len() - i,
        {
            let b = bytes[i];
            assert(bytes@.subrange(0, i as int + 1).drop_last() =~= bytes@.subrange(0, i as int));
            h = (h ^ (b as u64)).wrapping_mul(FNV_PRIME);
            i = i + 1;
        }
        assert(bytes@.subrange(0, bytes@.len() as int) =~= bytes@);
        Self::from_seed(seed ^ h)
    }

    /// The next 64-bit draw (xoshiro256++).
    pub fn next_u64(&mut self) -> (out: u64)
        ensures
            out == xoshiro_output(old(self)@),
            final(self)@ == xoshiro_step(old(self)@),
    {
        let result = rotate_left(self.s[0].wrapping_add(self.s[3]), 23).wrapping_add(self.s[0]);
        let t = self.s[1] << 17;
        let s0 = self.s[0];
        let s1 = self.s[1];
        let s2 = self.s[2] ^ s0;
        let s3 = self.s[3] ^ s1;
        let n1 = s1 ^ s2;
        let n0 = s0 ^ s3;
        let n2 = s2 ^ t;
        let n3 = rotate_left(s3, 45);
        self.s = [n0, n1, n2, n3];
        proof {
            assert(self@ =~= xoshiro_step(old(self)@));
        }
        result
    }

    /// The next `n` draws, in order (how an experiment derives its corpus of
    /// episode seeds from one base seed).
    pub fn next_u64s(&mut self, n: usize) -> (out: Vec<u64>)
        ensures
            out@ == xoshiro_stream(old(self)@, n as nat),
            final(self)@ == xoshiro_advance(old(self)@, n as nat),
    {
        let mut out: Vec<u64> = Vec::new();
        let mut i: usize = 0;
        while i < n
            invariant
                i <= n,
                out@ == xoshiro_stream(old(self)@, i as nat),
                self@ == xoshiro_advance(old(self)@, i as nat),
            decreases n - i,
        {
            let x = self.next_u64();
            out.push(x);
            i = i + 1;
        }
        out
    }
}

} // verus!
