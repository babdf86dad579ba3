use tileworld::codec::chunkify;
use tileworld::codec::i_to_u;
use tileworld::codec::u_to_i;
use tileworld::codec::CHUNKSIZE;
use tileworld::cursor::cursor_size_decrease;
use tileworld::cursor::cursor_size_increase;

#[test]
fn encode_small_values() {
    assert_eq!(i_to_u(0), 0);
    assert_eq!(i_to_u(-1), 1);
    assert_eq!(i_to_u(1), 2);
    assert_eq!(i_to_u(-2), 3);
    assert_eq!(i_to_u(2), 4);
    assert_eq!(i_to_u(-3), 5);
    assert_eq!(i_to_u(3), 6);
}

#[test]
fn decode_small_values() {
    assert_eq!(u_to_i(0), 0);
    assert_eq!(u_to_i(1), -1);
    assert_eq!(u_to_i(2), 1);
    assert_eq!(u_to_i(3), -2);
    assert_eq!(u_to_i(4), 2);
    assert_eq!(u_to_i(5), -3);
}

#[test]
fn codec_round_trip_symmetric_range() {
    let mut i: i32 = -100000;
    while i <= 100000 {
        assert_eq!(u_to_i(i_to_u(i)), i);
        i += 7;
    }
    for i in [i32::MIN, i32::MIN + 1, -65536, 65535, i32::MAX - 1, i32::MAX] {
        assert_eq!(u_to_i(i_to_u(i)), i);
    }
}

#[test]
fn encode_injective_on_range() {
    let mut seen = vec![false; 4001];
    let mut i: i32 = -1000;
    while i <= 1000 {
        let n = i_to_u(i);
        assert!(n < seen.len());
        assert!(!seen[n], "two coordinates map to index {}", n);
        seen[n] = true;
        i += 1;
    }
}

#[test]
fn chunkify_negative_one_is_last_slot_of_chunk_below_zero() {
    // -1 decomposes into the chunk immediately below zero with the last
    // local offset, not into chunk 0.
    let (chunk, local) = chunkify(-1);
    assert_eq!(chunk, i_to_u(-1));
    assert_eq!(local, CHUNKSIZE - 1);
}

#[test]
fn chunkify_examples() {
    assert_eq!(chunkify(0), (0, 0));
    assert_eq!(chunkify(31), (0, 31));
    assert_eq!(chunkify(32), (i_to_u(1), 0));
    assert_eq!(chunkify(35), (i_to_u(1), 3));
    assert_eq!(chunkify(-32), (i_to_u(-1), 0));
    assert_eq!(chunkify(-33), (i_to_u(-2), 31));
}

#[test]
fn chunkify_round_trip() {
    let mut i: i32 = -100000;
    while i <= 100000 {
        let (chunk, local) = chunkify(i);
        let back = u_to_i(chunk) as i64 * CHUNKSIZE as i64 + local as i64;
        assert_eq!(back, i as i64);
        assert!(local < CHUNKSIZE);
        i += 13;
    }
}

#[test]
fn cursor_size_steps() {
    let mut c: i32 = 1;
    cursor_size_increase(&mut c);
    assert_eq!(c, 2);
    cursor_size_increase(&mut c);
    assert_eq!(c, 3);
    let mut c2: i32 = 5;
    cursor_size_increase(&mut c2);
    assert_eq!(c2, 7);
    let mut c3: i32 = 100;
    cursor_size_increase(&mut c3);
    assert_eq!(c3, 121);
    let mut d: i32 = 1;
    cursor_size_decrease(&mut d);
    assert_eq!(d, 1);
    let mut d2: i32 = 41;
    cursor_size_decrease(&mut d2);
    assert_eq!(d2, 31);
    let mut d3: i32 = 100;
    cursor_size_decrease(&mut d3);
    assert_eq!(d3, 82);
}
