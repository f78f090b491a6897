//! Codec primitives against the `rmp` reference implementation, numeric
//! helpers against the platform's own float formatting, and the embedded
//! driver end to end.

use ddcollector::client::BufferClient;
use ddcollector::collect;
use ddcollector::interning::Interner;
use ddcollector::msgpack::{
    read_array_len, read_f64_bits, read_map_len, read_str, read_u16, read_u32, read_u64,
    read_usize, skip_value, write_array_len, write_f64_bits, write_map_len, write_str, write_uint,
};
use ddcollector::numbers::{f64_bits_of_u16, u16_to_decimal};
use ddcollector::Error;

#[test]
fn uint_round_trip_and_reference_bytes() {
    let cases: [u64; 12] = [
        0,
        1,
        0x7f,
        0x80,
        0xff,
        0x100,
        0xffff,
        0x10000,
        0xffff_ffff,
        0x1_0000_0000,
        u64::MAX - 1,
        u64::MAX,
    ];
    for v in cases {
        let mut wr = Vec::new();
        write_uint(&mut wr, v);
        // The same value through the reference encoder gives the same bytes.
        let mut reference = Vec::new();
        rmp::encode::write_uint(&mut reference, v).unwrap();
        assert_eq!(wr, reference);
        let mut pos = 0;
        assert_eq!(read_u64(&wr, &mut pos), Ok(v));
        assert_eq!(pos, wr.len());
    }
}

#[test]
fn narrowing_readers_enforce_ranges() {
    let mut wr = Vec::new();
    write_uint(&mut wr, 0x1_0000);
    let mut pos = 0;
    assert_eq!(read_u16(&wr, &mut pos), Err(Error::MalformedInput));
    assert_eq!(pos, 0);
    let mut pos = 0;
    assert_eq!(read_u32(&wr, &mut pos), Ok(0x1_0000));
    let mut wr = Vec::new();
    write_uint(&mut wr, 204);
    let mut pos = 0;
    assert_eq!(read_u16(&wr, &mut pos), Ok(204));
    let mut pos = 0;
    assert_eq!(read_usize(&wr, &mut pos), Ok(204));
}

#[test]
fn array_and_map_headers_round_trip() {
    for n in [0u32, 1, 15, 16, 0xffff, 0x10000] {
        let mut wr = Vec::new();
        write_array_len(&mut wr, n);
        let mut reference = Vec::new();
        rmp::encode::write_array_len(&mut reference, n).unwrap();
        assert_eq!(wr, reference);
        let mut pos = 0;
        assert_eq!(read_array_len(&wr, &mut pos), Ok(n));
        let mut wr = Vec::new();
        write_map_len(&mut wr, n);
        let mut reference = Vec::new();
        rmp::encode::write_map_len(&mut reference, n).unwrap();
        assert_eq!(wr, reference);
        let mut pos = 0;
        assert_eq!(read_map_len(&wr, &mut pos), Ok(n));
    }
}

#[test]
fn strings_round_trip_and_reference_bytes() {
    let long = "x".repeat(300);
    let cases = ["", "a", "hello", "naïve — ünïcode ✓", long.as_str()];
    for s in cases {
        let mut wr = Vec::new();
        write_str(&mut wr, s);
        let mut reference = Vec::new();
        rmp::encode::write_str(&mut reference, s).unwrap();
        assert_eq!(wr, reference);
        let mut pos = 0;
        assert_eq!(read_str(&wr, &mut pos).unwrap(), s);
        assert_eq!(pos, wr.len());
    }
}

#[test]
fn floats_travel_as_bit_patterns() {
    for v in [0.0f64, 1.5, -2.25, 3306.0, f64::MAX] {
        let mut wr = Vec::new();
        write_f64_bits(&mut wr, v.to_bits());
        let mut reference = Vec::new();
        rmp::encode::write_f64(&mut reference, v).unwrap();
        assert_eq!(wr, reference);
        let mut pos = 0;
        assert_eq!(read_f64_bits(&wr, &mut pos), Ok(v.to_bits()));
    }
}

#[test]
fn truncated_input_is_malformed() {
    let mut wr = Vec::new();
    write_uint(&mut wr, 0x12345);
    wr.truncate(2);
    let mut pos = 0;
    assert_eq!(read_u64(&wr, &mut pos), Err(Error::MalformedInput));
    assert_eq!(pos, 0);
    let mut wr = Vec::new();
    write_str(&mut wr, "hello");
    wr.truncate(3);
    let mut pos = 0;
    assert!(read_str(&wr, &mut pos).is_err());
    assert_eq!(pos, 0);
}

#[test]
fn invalid_utf8_is_malformed() {
    let wr: Vec<u8> = vec![0xa2, 0xff, 0xfe];
    let mut pos = 0;
    assert!(read_str(&wr, &mut pos).is_err());
    assert_eq!(pos, 0);
}

#[test]
fn skip_passes_over_any_value() {
    let mut wr = Vec::new();
    // A map holding nested arrays, strings, floats, and integers.
    write_map_len(&mut wr, 2);
    write_str(&mut wr, "k1");
    write_array_len(&mut wr, 3);
    write_uint(&mut wr, 1);
    write_f64_bits(&mut wr, 2.5f64.to_bits());
    write_str(&mut wr, "deep");
    write_str(&mut wr, "k2");
    write_uint(&mut wr, 7);
    let end = wr.len();
    write_uint(&mut wr, 42);
    let mut pos = 0;
    assert_eq!(skip_value(&wr, &mut pos), Ok(()));
    assert_eq!(pos, end);
    assert_eq!(read_u64(&wr, &mut pos), Ok(42));
}

#[test]
fn skip_tolerates_every_scalar_family() {
    // nil, booleans, negative fixint, signed ints, and a float32, written by
    // the reference encoder.
    let mut wr = Vec::new();
    rmp::encode::write_nil(&mut wr).unwrap();
    rmp::encode::write_bool(&mut wr, true).unwrap();
    rmp::encode::write_sint(&mut wr, -5).unwrap();
    rmp::encode::write_sint(&mut wr, -500).unwrap();
    rmp::encode::write_f32(&mut wr, 1.25).unwrap();
    rmp::encode::write_bin(&mut wr, &[1, 2, 3]).unwrap();
    let mut pos = 0;
    for _ in 0..6 {
        assert_eq!(skip_value(&wr, &mut pos), Ok(()));
    }
    assert_eq!(pos, wr.len());
}

#[test]
fn decimal_rendering_matches_formatting() {
    for v in [0u16, 7, 10, 99, 204, 1000, 65535] {
        assert_eq!(u16_to_decimal(v), format!("{}", v));
    }
}

#[test]
fn float_bits_of_small_integers_are_exact() {
    for v in [0u16, 1, 2, 3, 5, 80, 443, 3306, 8080, 32768, 65535] {
        assert_eq!(f64_bits_of_u16(v), (v as f64).to_bits());
    }
}

#[test]
fn interner_hands_back_equal_strings() {
    let mut interner = Interner::new();
    let a = interner.from_str("http.method");
    assert_eq!(a, "http.method");
    let b = interner.from_str("http.method");
    assert_eq!(b, "http.method");
    // One copy in the table: the seed plus the single interned content.
    assert_eq!(interner.strings.len(), 2);
}

#[test]
fn buffer_client_single_slot() {
    let mut cl = BufferClient::new();
    assert_eq!(cl.on_response(), None);
    cl.request(vec![1, 2, 3]);
    assert_eq!(cl.on_response(), Some(vec![1, 2, 3]));
    assert_eq!(cl.on_response(), None);
}

#[test]
fn collect_runs_one_payload_through() {
    // The single-span payload from the generic scenario, inlined.
    let mut wr = Vec::new();
    write_array_len(&mut wr, 2);
    write_array_len(&mut wr, 6);
    for s in ["svc", "op", "res", "k", "v", "t"] {
        write_str(&mut wr, s);
    }
    write_array_len(&mut wr, 2);
    write_array_len(&mut wr, 11);
    write_uint(&mut wr, 4);
    write_uint(&mut wr, 1000);
    write_uint(&mut wr, 7);
    write_uint(&mut wr, 1);
    write_uint(&mut wr, 0);
    write_uint(&mut wr, 0);
    write_uint(&mut wr, 1);
    write_uint(&mut wr, 2);
    write_map_len(&mut wr, 1);
    write_uint(&mut wr, 3);
    write_uint(&mut wr, 4);
    write_map_len(&mut wr, 0);
    write_uint(&mut wr, 5);
    write_array_len(&mut wr, 6);
    write_uint(&mut wr, 5);
    write_uint(&mut wr, 2500);
    write_uint(&mut wr, 7);
    write_uint(&mut wr, 1);
    write_map_len(&mut wr, 0);
    write_map_len(&mut wr, 0);
    let bytes = collect(&wr).unwrap();
    // One trace of one span in the keyed encoding.
    let mut rd: &[u8] = &bytes;
    assert_eq!(rmp::decode::read_array_len(&mut rd).unwrap(), 1);
    assert_eq!(rmp::decode::read_array_len(&mut rd).unwrap(), 1);
    assert_eq!(rmp::decode::read_map_len(&mut rd).unwrap(), 12);
    // A payload with no finished trace collects an empty buffer.
    let mut wr = Vec::new();
    write_array_len(&mut wr, 2);
    write_array_len(&mut wr, 0);
    write_array_len(&mut wr, 0);
    assert_eq!(collect(&wr).unwrap(), Vec::<u8>::new());
    // A malformed payload is rejected.
    let bad: Vec<u8> = vec![0xc1];
    assert_eq!(collect(&bad), Err(Error::MalformedInput));
}
