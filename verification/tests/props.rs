use firefly128::words;
use firefly128::Rng;

/// The bytes a fill of length `len` is documented to write, computed from
/// scalar draws alone: two words per 16-byte block, then a last pair whose
/// first word serves the tail only when at least 8 bytes remain, the rest
/// coming from the low bytes of the second word.
fn bytes_from_draws(rng: &mut Rng, len: usize) -> Vec<u8> {
    let mut out = Vec::new();
    if len == 0 {
        return out;
    }
    loop {
        let x = rng.u64();
        let y = rng.u64();
        if len - out.len() < 16 {
            let rem = len - out.len();
            if rem >= 8 {
                out.extend_from_slice(&x.to_le_bytes());
                out.extend_from_slice(&y.to_le_bytes()[..rem - 8]);
            } else {
                out.extend_from_slice(&y.to_le_bytes()[..rem]);
            }
            return out;
        }
        out.extend_from_slice(&x.to_le_bytes());
        out.extend_from_slice(&y.to_le_bytes());
    }
}

#[test]
fn determinism_same_seed() {
    let mut a = Rng::from_u64(42);
    let mut b = Rng::from_u64(42);
    for _ in 0..64 {
        assert_eq!(a.u64(), b.u64());
    }
    assert_eq!(a.state(), b.state());
}

#[test]
fn from_u64_known_state() {
    let rng = Rng::from_u64(13);
    assert_eq!(rng.state(), 0x7f8baf2862d7ae2c0dc49a855c3ce023);
}

#[test]
fn zero_seed_fallback() {
    let rng = Rng::from_seed([0; 16]);
    assert_eq!(rng.state(), 1);
}

#[test]
fn seed_is_little_endian() {
    let mut seed = [0u8; 16];
    for i in 0..16 {
        seed[i] = (i as u8) + 1;
    }
    let rng = Rng::from_seed(seed);
    assert_eq!(rng.state(), u128::from_le_bytes(seed));
}

#[test]
fn draw_formula_values() {
    let mut rng = Rng::new(1);
    assert_eq!(rng.u64(), 0x1);
    assert_eq!(rng.u64(), 0x200000000000001);
    assert_eq!(rng.u64(), 0x100001001);
    let mut top = Rng::new(u128::MAX);
    assert_eq!(top.u64(), 0);
    assert_eq!(top.state(), 0xffffe000000000000000000000000000);
}

#[test]
fn split_consumes_two_draws() {
    let mut a = Rng::from_u64(7);
    let mut b = a.clone();
    let _ = a.split();
    b.u64();
    b.u64();
    assert_eq!(a.state(), b.state());
    assert!(a == b);
}

#[test]
fn split_state_packs_two_draws() {
    let mut a = Rng::from_u64(7);
    let mut b = a.clone();
    let child = a.split();
    let x = b.u64();
    let y = b.u64();
    assert_eq!(child.state(), words::concat(x, y));
}

#[test]
fn nonzero_state_many_seeds() {
    for i in 0..10_000u64 {
        let mut rng = Rng::from_u64(i);
        assert_ne!(rng.state(), 0);
        for _ in 0..3 {
            rng.u64();
            assert_ne!(rng.state(), 0);
        }
    }
    for seed in [[0u8; 16], [0xff; 16], 1u128.to_le_bytes(), (u128::MAX - 1).to_le_bytes()] {
        let mut rng = Rng::from_seed(seed);
        for _ in 0..100 {
            assert_ne!(rng.state(), 0);
            rng.u64();
        }
        let child = rng.split();
        assert_ne!(child.state(), 0);
        assert_ne!(rng.state(), 0);
    }
}

#[test]
fn fill_matches_draws() {
    for len in [0usize, 8, 9, 12, 15, 16, 17, 24, 31, 32, 33, 40, 48, 100] {
        let mut a = Rng::from_u64(len as u64);
        let mut b = a.clone();
        let mut buf = vec![0u8; len];
        a.fill_u8(&mut buf);
        let expected = bytes_from_draws(&mut b, len);
        assert_eq!(buf, expected);
        assert_eq!(a.state(), b.state());
    }
}

#[test]
fn fill_advances_like_draws() {
    for len in 1usize..50 {
        let mut a = Rng::from_u64(99);
        let mut b = a.clone();
        let mut buf = vec![0u8; len];
        a.fill_u8(&mut buf);
        for _ in 0..2 * (len / 16 + 1) {
            b.u64();
        }
        assert_eq!(a.state(), b.state());
    }
}

#[test]
fn fill_tail_byte_order() {
    for len in [1usize, 7, 8, 9, 17] {
        let mut a = Rng::from_u64(5);
        let mut b = a.clone();
        let mut buf = vec![0u8; len];
        a.fill_u8(&mut buf);
        assert_eq!(buf, bytes_from_draws(&mut b, len));
    }
    // The 1-byte tail comes from the second word of the final pair.
    let mut a = Rng::from_u64(5);
    let mut b = a.clone();
    let mut buf = vec![0u8; 1];
    a.fill_u8(&mut buf);
    let _x = b.u64();
    let y = b.u64();
    assert_eq!(buf[0], y.to_le_bytes()[0]);
}

#[test]
fn fill_empty_draws_nothing() {
    let mut a = Rng::from_u64(3);
    let b = a.clone();
    let mut buf: Vec<u8> = Vec::new();
    a.fill_u8(&mut buf);
    assert!(buf.is_empty());
    assert_eq!(a.state(), b.state());
}

#[test]
fn word_helpers() {
    assert_eq!(words::lo(0xaaaa_bbbb_cccc_dddd_1111_2222_3333_4444), 0x1111_2222_3333_4444);
    assert_eq!(words::hi(0xaaaa_bbbb_cccc_dddd_1111_2222_3333_4444), 0xaaaa_bbbb_cccc_dddd);
    assert_eq!(
        words::concat(0x1111_2222_3333_4444, 0xaaaa_bbbb_cccc_dddd),
        0xaaaa_bbbb_cccc_dddd_1111_2222_3333_4444
    );
    assert_eq!(words::mul(u64::MAX, u64::MAX), u64::MAX as u128 * u64::MAX as u128);
    assert_eq!(words::swap_bytes(0x0102_0304_0506_0708_090a_0b0c_0d0e_0f10), u128::from_le_bytes(
        [1, 2, 3, 4, 5, 6, 7, 8, 9, 0x0a, 0x0b, 0x0c, 0x0d, 0x0e, 0x0f, 0x10],
    ));
}

#[test]
fn new_keeps_state() {
    let rng = Rng::new(0xdead_beef);
    assert_eq!(rng.state(), 0xdead_beef);
}
