use chuk_robot_benches::clock::{CONTROL_HZ, DECIMATION, WORLD_HZ};
use chuk_robot_benches::rng::{splitmix64, Rng};

#[test]
fn rng_streams_are_deterministic_and_domain_separated() {
    let mut a = Rng::from_seed(42);
    let mut b = Rng::from_seed(42);
    for _ in 0..1000 {
        assert_eq!(a.next_u64(), b.next_u64());
    }
    let mut d1 = Rng::substream(42, "driver");
    let mut d2 = Rng::substream(42, "env");
    assert_ne!(d1.next_u64(), d2.next_u64());
}

#[test]
fn decimation_is_exact() {
    assert_eq!(DECIMATION, 8);
    assert_eq!(WORLD_HZ % CONTROL_HZ, 0);
}

#[test]
fn splitmix64_matches_reference_vector_from_zero() {
    let mut st: u64 = 0;
    assert_eq!(splitmix64(&mut st), 0xe220a8397b1dcdaf);
    assert_eq!(splitmix64(&mut st), 0x6e789e6aa1b965f4);
    assert_eq!(splitmix64(&mut st), 0x06c45d188009454f);
    assert_eq!(splitmix64(&mut st), 0xf88bb8a8724c81ec);
    assert_eq!(st, 0x9E37_79B9_7F4A_7C15u64.wrapping_mul(4));
}

#[test]
fn from_seed_state_is_four_splitmix_outputs() {
    let r = Rng::from_seed(42);
    assert_eq!(
        r.state(),
        [0xbdd732262feb6e95, 0x28efe333b266f103, 0x47526757130f9f52, 0x581ce1ff0e4ae394]
    );
    let mut sm: u64 = 42;
    let expected = [splitmix64(&mut sm), splitmix64(&mut sm), splitmix64(&mut sm), splitmix64(&mut sm)];
    assert_eq!(r.state(), expected);
}

#[test]
fn xoshiro_draws_match_reference_vector() {
    let mut r = Rng::from_seed(42);
    assert_eq!(r.next_u64(), 0xd0764d4f4476689f);
    assert_eq!(r.next_u64(), 0x519e4174576f3791);
    assert_eq!(r.next_u64(), 0xfbe07cfb0c24ed8c);
    let mut z = Rng::from_seed(0);
    assert_eq!(z.next_u64(), 0x53175d61490b23df);
    assert_eq!(z.next_u64(), 0x61da6f3dc380d507);
}

#[test]
fn substream_xors_seed_with_fnv1a_of_domain() {
    let mut d = Rng::substream(42, "driver");
    assert_eq!(d.next_u64(), 0xb23d39f7e525d47d);
    let mut e = Rng::substream(42, "env");
    assert_eq!(e.next_u64(), 0x3780bbcb70505c5a);
    // FNV-1a of "driver" is 0xc85b78e3dea334ff.
    assert_eq!(Rng::substream(42, "driver"), Rng::from_seed(42 ^ 0xc85b78e3dea334ff));
    // An empty domain hashes to the FNV offset basis.
    assert_eq!(Rng::substream(7, ""), Rng::from_seed(7 ^ 0xcbf2_9ce4_8422_2325));
    let mut empty = Rng::substream(42, "");
    assert_eq!(empty.next_u64(), 0xab548b2e53f106f4);
}

#[test]
fn next_u64s_equals_successive_draws() {
    let mut a = Rng::from_seed(1234);
    let mut b = a.clone();
    let batch = a.next_u64s(16);
    assert_eq!(batch.len(), 16);
    for x in batch {
        assert_eq!(x, b.next_u64());
    }
    assert_eq!(a, b);
    let mut c = Rng::from_seed(9);
    let before = c.clone();
    assert!(c.next_u64s(0).is_empty());
    assert_eq!(c, before);
}

#[test]
fn saved_state_resumes_the_same_stream() {
    let mut a = Rng::substream(99, "env");
    a.next_u64();
    a.next_u64();
    let mut resumed = Rng::from_state(a.state());
    assert_eq!(resumed, a);
    for _ in 0..100 {
        assert_eq!(resumed.next_u64(), a.next_u64());
    }
}

#[test]
fn batches_split_anywhere_give_the_same_stream() {
    let mut whole = Rng::substream(5, "corpus");
    let all = whole.next_u64s(8);
    let mut parts = Rng::substream(5, "corpus");
    let mut joined = parts.next_u64s(3);
    joined.extend(parts.next_u64s(5));
    assert_eq!(joined, all);
    assert_eq!(parts, whole);
}
