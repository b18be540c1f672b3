use eetf::{Atom, BigInteger, Binary, BitBinary, ExternalFun, FixInteger, ImproperList, InternalFun, List, Pid, Port, Reference, Tuple};
use std::io::Write;
use rocker_merge::codec::{decode_term, encode_term, is_well_formed};
use rocker_merge::frame::{is_well_framed, MAX_NESTING, NESTING_STACK, STACK_PER_LEVEL};
use rocker_merge::operation::{
    apply_operation, operation_by_name, parse_operation, process_eetf_merge_operation, Operation,
    OperationName,
};
use rocker_merge::term::{bytes_eq, float_eq, shortest, term_eq, terms_eq, ErlangTerm, ProcessId};

fn wire(term: eetf::Term) -> Vec<u8> {
    let mut bytes = Vec::new();
    term.encode(&mut bytes).expect("the term can be encoded");
    bytes
}

fn atom(name: &str) -> ErlangTerm {
    ErlangTerm::Atom(name.to_string())
}

fn ints(values: &[i32]) -> ErlangTerm {
    ErlangTerm::List(values.iter().map(|value| ErlangTerm::Integer(*value)).collect())
}

fn operation(name: &str, parameters: Vec<ErlangTerm>) -> ErlangTerm {
    let mut elements = vec![atom(name)];
    elements.extend(parameters);
    ErlangTerm::Tuple(elements)
}

fn pid() -> ProcessId {
    ProcessId { node: "n@host".to_string(), id: 7, serial: 8, creation: 2 }
}

fn wire_pid() -> Pid {
    Pid { node: Atom::from("n@host"), id: 7, serial: 8, creation: 2 }
}

/// Terms of every kind, on the codec's side and on this library's side.
fn samples() -> Vec<(eetf::Term, ErlangTerm)> {
    let free = vec![eetf::Term::from(FixInteger::from(1)), eetf::Term::from(Atom::from("v"))];
    let free_here = || vec![ErlangTerm::Integer(1), atom("v")];
    vec![
        (eetf::Term::from(Atom::from("ok")), atom("ok")),
        (eetf::Term::from(Atom::from("h\u{e9}")), atom("h\u{e9}")),
        (eetf::Term::from(FixInteger::from(0)), ErlangTerm::Integer(0)),
        (eetf::Term::from(FixInteger::from(255)), ErlangTerm::Integer(255)),
        (eetf::Term::from(FixInteger::from(256)), ErlangTerm::Integer(256)),
        (eetf::Term::from(FixInteger::from(-1)), ErlangTerm::Integer(-1)),
        (eetf::Term::from(FixInteger::from(i32::MIN)), ErlangTerm::Integer(i32::MIN)),
        (eetf::Term::from(BigInteger::from(0x0102_0304_0506u64)), ErlangTerm::BigInteger(vec![6, 5, 4, 3, 2, 1])),
        (eetf::Term::from(BigInteger::from(0xff00_0000_0000u64)), ErlangTerm::BigInteger(vec![0, 0, 0, 0, 0, 0xff, 0])),
        (eetf::Term::from(BigInteger::from(-0x0100_0000_0000i64)), ErlangTerm::BigInteger(vec![0, 0, 0, 0, 0, 0xff])),
        (eetf::Term::from(eetf::Float { value: 1.5 }), ErlangTerm::Float(0x3ff8_0000_0000_0000)),
        (eetf::Term::from(eetf::Float { value: -0.0 }), ErlangTerm::Float(0x8000_0000_0000_0000)),
        (eetf::Term::from(wire_pid()), ErlangTerm::Pid(pid())),
        (
            eetf::Term::from(Port { node: Atom::from("n@host"), id: 9, creation: 1 }),
            ErlangTerm::Port { node: "n@host".to_string(), id: 9, creation: 1 },
        ),
        (
            eetf::Term::from(Reference { node: Atom::from("n@host"), id: vec![1, 2, 3], creation: 1 }),
            ErlangTerm::Reference { node: "n@host".to_string(), id: vec![1, 2, 3], creation: 1 },
        ),
        (
            eetf::Term::from(ExternalFun { module: Atom::from("lists"), function: Atom::from("map"), arity: 2 }),
            ErlangTerm::ExternalFun { module: "lists".to_string(), function: "map".to_string(), arity: 2 },
        ),
        (
            eetf::Term::from(InternalFun::Old {
                module: Atom::from("m"),
                pid: wire_pid(),
                free_vars: free.clone(),
                index: 3,
                uniq: -4,
            }),
            ErlangTerm::OldFun { module: "m".to_string(), pid: pid(), free_vars: free_here(), index: 3, uniq: -4 },
        ),
        (
            eetf::Term::from(InternalFun::New {
                module: Atom::from("m"),
                arity: 2,
                pid: wire_pid(),
                free_vars: free,
                index: 3,
                uniq: [9; 16],
                old_index: 5,
                old_uniq: 6,
            }),
            ErlangTerm::NewFun {
                module: "m".to_string(),
                arity: 2,
                pid: pid(),
                free_vars: free_here(),
                index: 3,
                uniq: [9; 16],
                old_index: 5,
                old_uniq: 6,
            },
        ),
        (eetf::Term::from(Binary::from(&b"bytes"[..])), ErlangTerm::Binary(b"bytes".to_vec())),
        (eetf::Term::from(Binary::from(&b""[..])), ErlangTerm::Binary(vec![])),
        (
            eetf::Term::from(BitBinary::from((vec![1, 2, 5], 3))),
            ErlangTerm::BitBinary { bytes: vec![1, 2, 5], tail_bits_size: 3 },
        ),
        (
            eetf::Term::from(BitBinary::from((vec![1, 200], 8))),
            ErlangTerm::BitBinary { bytes: vec![1, 200], tail_bits_size: 8 },
        ),
        (eetf::Term::from(List::nil()), ErlangTerm::List(vec![])),
        (
            eetf::Term::from(List::from(vec![eetf::Term::from(FixInteger::from(1)), eetf::Term::from(FixInteger::from(2))])),
            ints(&[1, 2]),
        ),
        (
            eetf::Term::from(List::from(vec![eetf::Term::from(Atom::from("a")), eetf::Term::from(FixInteger::from(300))])),
            ErlangTerm::List(vec![atom("a"), ErlangTerm::Integer(300)]),
        ),
        (
            eetf::Term::from(ImproperList::from((
                vec![eetf::Term::from(Atom::from("a"))],
                eetf::Term::from(Atom::from("b")),
            ))),
            ErlangTerm::ImproperList { elements: vec![atom("a")], last: Box::new(atom("b")) },
        ),
        (
            eetf::Term::from(Tuple::from(vec![
                eetf::Term::from(Atom::from("a")),
                eetf::Term::from(Tuple::from(vec![eetf::Term::from(FixInteger::from(1))])),
            ])),
            ErlangTerm::Tuple(vec![atom("a"), ErlangTerm::Tuple(vec![ErlangTerm::Integer(1)])]),
        ),
        (eetf::Term::from(Tuple::nil()), ErlangTerm::Tuple(vec![])),
        (
            eetf::Term::from(eetf::Map::from(vec![
                (eetf::Term::from(Atom::from("k")), eetf::Term::from(FixInteger::from(1))),
                (eetf::Term::from(Atom::from("j")), eetf::Term::from(List::nil())),
            ])),
            ErlangTerm::Mapping(vec![(atom("k"), ErlangTerm::Integer(1)), (atom("j"), ErlangTerm::List(vec![]))]),
        ),
    ]
}

#[test]
fn decode_reads_terms_of_every_kind() {
    for (outside, here) in samples() {
        let bytes = wire(outside);
        assert!(is_well_framed(&bytes), "{:?}", here);
        assert_eq!(decode_term(&bytes), Some(here));
    }
}

#[test]
fn encode_writes_terms_of_every_kind() {
    for (outside, here) in samples() {
        let bytes = wire(outside);
        assert!(is_well_formed(&here), "{:?}", here);
        assert_eq!(encode_term(here), Some(bytes));
    }
}

#[test]
fn decode_reads_the_older_layouts() {
    assert_eq!(decode_term(&[131, 115, 2, 111, 107]), Some(atom("ok")));
    assert_eq!(decode_term(&[131, 119, 2, 111, 107]), Some(atom("ok")));
    assert_eq!(decode_term(&[131, 118, 0, 2, 111, 107]), Some(atom("ok")));
    assert_eq!(decode_term(&[131, 107, 0, 2, 1, 2]), Some(ints(&[1, 2])));
    assert_eq!(decode_term(&[131, 108, 0, 0, 0, 1, 97, 1, 106]), Some(ints(&[1])));
    assert_eq!(decode_term(&[131, 105, 0, 0, 0, 1, 97, 1]), Some(ErlangTerm::Tuple(vec![ErlangTerm::Integer(1)])));
    assert_eq!(decode_term(&[131, 70, 63, 248, 0, 0, 0, 0, 0, 0]), Some(ErlangTerm::Float(0x3ff8_0000_0000_0000)));
    let mut text = b"1.50000000000000000000e+00".to_vec();
    text.resize(31, 0);
    let mut bytes = vec![131, 99];
    bytes.extend_from_slice(&text);
    assert_eq!(decode_term(&bytes), Some(ErlangTerm::Float(0x3ff8_0000_0000_0000)));
    assert_eq!(
        decode_term(&[131, 101, 100, 0, 1, 110, 0, 0, 0, 5, 1]),
        Some(ErlangTerm::Reference { node: "n".to_string(), id: vec![5], creation: 1 })
    );
    assert_eq!(decode_term(&[131, 111, 0, 0, 0, 2, 1, 0, 1]), Some(ErlangTerm::BigInteger(vec![0, 0xff])));
    assert_eq!(decode_term(&[131, 97, 7, 1, 2, 3]), Some(ErlangTerm::Integer(7)));
}

#[test]
fn decode_reads_no_term_from_other_bytes() {
    for bytes in [
        &b""[..], b"5", b"not a term", &[131], &[130, 97, 1], &[131, 97], &[131, 98, 0, 0, 0], &[131, 200],
        &[131, 100, 0, 5, 97], &[131, 104, 2, 97, 1], &[131, 108, 0, 0, 0, 1, 97, 1],
        &[131, 100, 0, 1, 0xff], &[131, 110, 1, 2, 1], &[131, 70, 0x7f, 0xf0, 0, 0, 0, 0, 0, 0],
        &[131, 103, 97, 1, 0, 0, 0, 1, 0, 0, 0, 1, 0], &[131, 113, 100, 0, 1, 109, 100, 0, 1, 102, 100, 0, 1, 120],
    ] {
        assert_eq!(decode_term(bytes), None, "{:?}", bytes);
    }
}

#[test]
fn decode_is_not_handed_bytes_that_stop_the_codec() {
    for bytes in [
        &[131, 68, 0, 0][..], &[131, 82, 0], &[131, 104, 1, 82, 0], &[131, 108, 0, 0, 0, 1, 82, 0, 106],
        &[131, 77, 0, 0, 0, 1, 0, 255], &[131, 77, 0, 0, 0, 2, 9, 255, 255], &[131, 103, 82, 0, 0, 0, 0, 1, 0, 0, 0, 1, 0],
    ] {
        assert!(!is_well_framed(bytes), "{:?}", bytes);
        assert_eq!(decode_term(bytes), None, "{:?}", bytes);
    }
}

#[test]
fn decode_takes_a_bit_string_without_bytes_whatever_its_bit_count() {
    assert_eq!(
        decode_term(&[131, 77, 0, 0, 0, 0, 0]),
        Some(ErlangTerm::BitBinary { bytes: vec![], tail_bits_size: 0 })
    );
    assert_eq!(encode_term(ErlangTerm::BitBinary { bytes: vec![], tail_bits_size: 0 }), Some(vec![131, 77, 0, 0, 0, 0, 0]));
}

fn compressed(plain: &[u8]) -> Vec<u8> {
    let mut encoder = libflate::zlib::Encoder::new(Vec::new()).expect("an encoder");
    encoder.write_all(&plain[1..]).expect("the bytes are taken");
    let stream = encoder.finish().into_result().expect("the stream is written");
    let mut bytes = vec![131u8, 80];
    bytes.extend_from_slice(&((plain.len() - 1) as u32).to_be_bytes());
    bytes.extend_from_slice(&stream);
    bytes
}

#[test]
fn decode_reads_compressed_terms() {
    for (outside, here) in samples() {
        let bytes = compressed(&wire(outside.clone()));
        assert_eq!(bytes[1], 80);
        let by_codec = eetf::Term::decode(&bytes[..]).expect("the codec reads the compressed term");
        assert_eq!(by_codec, outside);
        assert_eq!(decode_term(&bytes), Some(here));
    }
    let mut seed: u64 = 17;
    for _ in 0..3000 {
        let plain = wire(some_term(&mut seed, 4));
        let bytes = compressed(&plain);
        let by_codec = eetf::Term::decode(&bytes[..]).expect("the codec reads the compressed term");
        let here = decode_term(&bytes).expect("the compressed term is read");
        assert_eq!(Some(here.clone()), decode_term(&plain));
        assert_eq!(encode_term(here), Some(wire(by_codec)));
    }
}

#[test]
fn decode_reads_a_compressed_term_whatever_length_it_claims() {
    let mut bytes = compressed(&wire(eetf::Term::from(FixInteger::from(70000))));
    for claimed in [0u32, 1, 5, 1000, u32::MAX] {
        bytes[2..6].copy_from_slice(&claimed.to_be_bytes());
        assert_eq!(decode_term(&bytes), Some(ErlangTerm::Integer(70000)));
        assert!(eetf::Term::decode(&bytes[..]).is_ok());
    }
}

#[test]
fn decode_reads_a_compressed_term_with_a_wrong_checksum() {
    let mut bytes = compressed(&wire(eetf::Term::from(Atom::from("kept"))));
    let last = bytes.len() - 1;
    bytes[last] ^= 0xff;
    assert!(eetf::Term::decode(&bytes[..]).is_ok());
    assert_eq!(decode_term(&bytes), Some(atom("kept")));
}

#[test]
fn decode_reads_no_term_from_a_broken_stream() {
    let whole = compressed(&wire(eetf::Term::from(Binary::from(&b"some bytes that are packed"[..]))));
    for cut in 0..10 {
        assert_eq!(decode_term(&whole[..cut]), None, "cut at {}", cut);
        assert!(eetf::Term::decode(&whole[..cut]).is_err(), "cut at {}", cut);
    }
    for bytes in [
        &[131u8, 80][..], &[131, 80, 0, 0, 0, 2], &[131, 80, 0, 0, 0, 2, 120], &[131, 80, 0, 0, 0, 2, 0, 0],
        &[131, 80, 0, 0, 0, 2, 120, 156], &[131, 80, 0, 0, 0, 2, 120, 156, 7], &[131, 80, 0, 0, 0, 2, 120, 157, 75, 100, 4, 0],
    ] {
        assert_eq!(decode_term(bytes), None, "{:?}", bytes);
        assert!(eetf::Term::decode(bytes).is_err(), "{:?}", bytes);
    }
}

#[test]
fn decode_is_not_handed_unpacked_bytes_that_stop_the_codec() {
    for plain in [&[131u8, 82, 0][..], &[131, 104, 1, 82, 0], &[131, 77, 0, 0, 0, 1, 0, 255], &[131, 108, 255, 255, 255, 255, 106]] {
        assert_eq!(decode_term(&compressed(plain)), None, "{:?}", plain);
    }
    // Behind the tag of a compressed term, the tags that stand only behind the
    // version byte are tags that the codec does not know.
    for plain in [&[131u8, 80, 0, 0, 0, 0][..], &[131, 68, 0]] {
        let bytes = compressed(plain);
        assert_eq!(decode_term(&bytes), None);
        assert!(eetf::Term::decode(&bytes[..]).is_err());
    }
}

#[test]
fn decode_goes_through_a_stream_of_many_blocks_without_bytes() {
    let mut bytes = vec![131u8, 80, 0, 0, 0, 2, 120, 156];
    for _ in 0..1000000 {
        bytes.extend_from_slice(&[0, 0, 0, 255, 255]);
    }
    bytes.extend_from_slice(&[1, 2, 0, 253, 255, 97, 7]);
    bytes.extend_from_slice(&[0, 112, 0, 105]);
    assert_eq!(decode_term(&bytes), Some(ErlangTerm::Integer(7)));
}

#[test]
fn frame_bounds_the_nesting_by_the_stack() {
    let nested = |depth: usize| {
        let mut bytes = vec![131u8];
        for _ in 0..depth {
            bytes.extend_from_slice(&[104, 1]);
        }
        bytes.push(106);
        bytes
    };
    assert_eq!(MAX_NESTING, 512);
    assert_eq!(MAX_NESTING * STACK_PER_LEVEL, NESTING_STACK);
    assert!(is_well_framed(&nested(0)));
    assert!(is_well_framed(&nested(1)));
    assert!(is_well_framed(&nested(MAX_NESTING)));
    assert!(!is_well_framed(&nested(MAX_NESTING + 1)));
    assert!(!is_well_framed(&nested(1000000)));
    assert_eq!(decode_term(&nested(MAX_NESTING + 1)), None);
    let deepest = decode_term(&nested(MAX_NESTING)).expect("the deepest term is read");
    let copy = deepest.clone();
    assert!(term_eq(&deepest, &copy));
    assert!(is_well_formed(&deepest));
    assert_eq!(encode_term(deepest), Some(nested(MAX_NESTING)));
    assert_eq!(decode_term(&compressed(&nested(MAX_NESTING))), Some(copy));
    assert_eq!(decode_term(&compressed(&nested(MAX_NESTING + 1))), None);
}

#[test]
fn integers_of_any_size_are_equal_as_numbers() {
    let big = |bytes: &[u8]| ErlangTerm::BigInteger(bytes.to_vec());
    assert!(term_eq(&big(&[]), &big(&[0])));
    assert!(term_eq(&big(&[0, 0, 0]), &big(&[])));
    assert!(term_eq(&big(&[1, 0]), &big(&[1])));
    assert!(term_eq(&big(&[0xff, 0xff, 0xff]), &big(&[0xff])));
    assert!(term_eq(&big(&[0x80, 0xff]), &big(&[0x80])));
    assert!(!term_eq(&big(&[0x80, 0x00]), &big(&[0x80])));
    assert!(!term_eq(&big(&[0x7f, 0xff]), &big(&[0x7f])));
    assert!(!term_eq(&big(&[0xff]), &big(&[0xff, 0x00])));
    assert!(!term_eq(&big(&[1]), &big(&[2])));
    assert_eq!(shortest(&[]), vec![0]);
    assert_eq!(shortest(&[5, 0, 0]), vec![5]);
    assert_eq!(shortest(&[0x80, 0, 0]), vec![0x80, 0]);
    assert_eq!(shortest(&[0x80, 0xff, 0xff]), vec![0x80]);
    assert_eq!(shortest(&[0xff, 0xff]), vec![0xff]);
    assert_eq!(shortest(&[0, 0]), vec![0]);
    let mut seed: u64 = 29;
    for _ in 0..50000 {
        let draw = |seed: &mut u64| -> Vec<u8> {
            let len = next(seed) % 5;
            (0..len).map(|_| [0u8, 0, 0xff, 0xff, 0x7f, 0x80, 1, 0xfe][next(seed) as usize % 8]).collect()
        };
        let (a, b) = (draw(&mut seed), draw(&mut seed));
        let same = num_bigint::BigInt::from_signed_bytes_le(&a) == num_bigint::BigInt::from_signed_bytes_le(&b);
        assert_eq!(term_eq(&big(&a), &big(&b)), same, "{:?} and {:?}", a, b);
        assert_eq!(shortest(&a), num_bigint::BigInt::from_signed_bytes_le(&a).to_signed_bytes_le(), "{:?}", a);
    }
}

#[test]
fn frame_wants_the_whole_term() {
    let bytes = wire(eetf::Term::from(Tuple::from(vec![
        eetf::Term::from(Atom::from("list_set")),
        eetf::Term::from(FixInteger::from(70000)),
        eetf::Term::from(Binary::from(&b"payload"[..])),
    ])));
    assert!(is_well_framed(&bytes));
    for cut in 0..bytes.len() {
        assert!(!is_well_framed(&bytes[..cut]), "cut at {}", cut);
        assert_eq!(decode_term(&bytes[..cut]), None);
    }
    let mut longer = bytes.clone();
    longer.extend_from_slice(b"behind");
    assert!(is_well_framed(&longer));
    assert_eq!(decode_term(&longer), decode_term(&bytes));
}

#[test]
fn encode_refuses_a_bit_string_with_an_unsound_bit_count() {
    for tail_bits_size in [0u8, 9, 255] {
        let term = ErlangTerm::List(vec![ErlangTerm::BitBinary { bytes: vec![1], tail_bits_size }]);
        assert!(!is_well_formed(&term));
        assert_eq!(encode_term(term), None);
    }
    let term = ErlangTerm::Mapping(vec![(atom("k"), ErlangTerm::BitBinary { bytes: vec![1], tail_bits_size: 0 })]);
    assert_eq!(encode_term(term), None);
    let term = ErlangTerm::ImproperList {
        elements: vec![],
        last: Box::new(ErlangTerm::BitBinary { bytes: vec![1], tail_bits_size: 9 }),
    };
    assert_eq!(encode_term(term), None);
}

#[test]
fn encode_refuses_what_the_codec_refuses() {
    assert_eq!(encode_term(ErlangTerm::Atom("a".repeat(0x10000))), None);
    assert!(encode_term(ErlangTerm::Atom("a".repeat(0xffff))).is_some());
}

#[test]
fn encode_writes_a_list_of_bytes_as_a_string() {
    assert_eq!(encode_term(ints(&[1, 2])), Some(vec![131, 107, 0, 2, 1, 2]));
    assert_eq!(encode_term(ErlangTerm::List(vec![])), Some(vec![131, 106]));
    assert_eq!(encode_term(ErlangTerm::Integer(7)), Some(vec![131, 97, 7]));
    assert_eq!(encode_term(ErlangTerm::Integer(-1)), Some(vec![131, 98, 255, 255, 255, 255]));
    assert_eq!(encode_term(ErlangTerm::Binary(vec![1])), Some(vec![131, 109, 0, 0, 0, 1, 1]));
}

#[test]
fn terms_are_equal_part_by_part() {
    for (_, here) in samples() {
        assert!(term_eq(&here, &here), "{:?}", here);
    }
    let all: Vec<ErlangTerm> = samples().into_iter().map(|(_, here)| here).collect();
    for (i, a) in all.iter().enumerate() {
        for (j, b) in all.iter().enumerate() {
            assert_eq!(term_eq(a, b), i == j, "{:?} and {:?}", a, b);
        }
    }
    assert!(terms_eq(&all, &all));
    let shorter: Vec<ErlangTerm> = samples().into_iter().skip(1).map(|(_, here)| here).collect();
    assert!(!terms_eq(&all, &shorter));
    assert!(terms_eq(&shorter, &shorter));
}

#[test]
fn floats_are_equal_as_numbers() {
    let zero = 0.0f64.to_bits();
    let minus_zero = (-0.0f64).to_bits();
    let one = 1.0f64.to_bits();
    let nan = f64::NAN.to_bits();
    let infinity = f64::INFINITY.to_bits();
    assert!(float_eq(zero, zero));
    assert!(float_eq(zero, minus_zero));
    assert!(float_eq(minus_zero, zero));
    assert!(float_eq(one, one));
    assert!(!float_eq(one, zero));
    assert!(!float_eq(nan, nan));
    assert!(!float_eq(nan, one));
    assert!(float_eq(infinity, infinity));
    assert!(!float_eq(infinity, f64::NEG_INFINITY.to_bits()));
    let mut seed: u64 = 3;
    for _ in 0..20000 {
        seed = seed.wrapping_mul(6364136223846793005).wrapping_add(1442695040888963407);
        let a = seed;
        let b = if seed % 3 == 0 { a } else { a ^ (1u64 << (seed % 64)) };
        assert_eq!(float_eq(a, b), f64::from_bits(a) == f64::from_bits(b));
    }
    assert!(term_eq(&ErlangTerm::Float(zero), &ErlangTerm::Float(minus_zero)));
    assert!(!term_eq(&ErlangTerm::Float(nan), &ErlangTerm::Float(nan)));
    assert!(!term_eq(&ErlangTerm::List(vec![ErlangTerm::Float(nan)]), &ErlangTerm::List(vec![ErlangTerm::Float(nan)])));
}

#[test]
fn terms_are_equal_as_the_codec_has_them_equal() {
    let outside: Vec<eetf::Term> = samples().into_iter().map(|(outside, _)| outside).collect();
    let here: Vec<ErlangTerm> = samples().into_iter().map(|(_, here)| here).collect();
    for i in 0..outside.len() {
        for j in 0..outside.len() {
            assert_eq!(term_eq(&here[i], &here[j]), outside[i] == outside[j]);
        }
    }
}

#[test]
fn bytes_are_equal_byte_by_byte() {
    assert!(bytes_eq(b"", b""));
    assert!(bytes_eq(b"abc", b"abc"));
    assert!(!bytes_eq(b"abc", b"abd"));
    assert!(!bytes_eq(b"abc", b"ab"));
    assert!(!bytes_eq(b"", b"a"));
}

#[test]
fn operations_are_known_by_name() {
    assert_eq!(operation_by_name("int_add"), Some(OperationName::IntAdd));
    assert_eq!(operation_by_name("list_append"), Some(OperationName::ListAppend));
    assert_eq!(operation_by_name("list_prepend"), Some(OperationName::ListPrepend));
    assert_eq!(operation_by_name("list_subtract"), Some(OperationName::ListSubtract));
    assert_eq!(operation_by_name("list_set"), Some(OperationName::ListSet));
    assert_eq!(operation_by_name("list_delete"), Some(OperationName::ListDelete));
    assert_eq!(operation_by_name("list_insert"), Some(OperationName::ListInsert));
    assert_eq!(operation_by_name("binary_append"), Some(OperationName::BinaryAppend));
    assert_eq!(operation_by_name("binary_erase"), Some(OperationName::BinaryErase));
    assert_eq!(operation_by_name("binary_insert"), Some(OperationName::BinaryInsert));
    assert_eq!(operation_by_name("binary_replace"), Some(OperationName::BinaryReplace));
    for name in ["", "int_ad", "int_add ", "INT_ADD", "list", "binary_replac\u{e9}"] {
        assert_eq!(operation_by_name(name), None, "{:?}", name);
    }
}

#[test]
fn operations_are_read_from_tuples() {
    assert_eq!(parse_operation(operation("int_add", vec![ErlangTerm::Integer(4)])), Some(Operation::IntAdd(4)));
    assert_eq!(
        parse_operation(operation("list_append", vec![ints(&[1])])),
        Some(Operation::ListAppend(vec![ErlangTerm::Integer(1)]))
    );
    assert_eq!(
        parse_operation(operation("list_set", vec![ErlangTerm::Integer(2), atom("x"), atom("more")])),
        Some(Operation::ListSet(2, atom("x")))
    );
    assert_eq!(
        parse_operation(operation("list_delete", vec![ErlangTerm::Integer(2)])),
        Some(Operation::ListDelete(2))
    );
    assert_eq!(
        parse_operation(operation("list_delete", vec![ErlangTerm::Integer(2), ErlangTerm::Integer(5)])),
        Some(Operation::ListDeleteRange(2, 5))
    );
    assert_eq!(parse_operation(operation("list_delete", vec![ErlangTerm::Integer(2), atom("x")])), None);
    assert_eq!(
        parse_operation(operation("binary_replace", vec![ErlangTerm::Integer(1), ErlangTerm::Integer(2), ErlangTerm::Binary(vec![3])])),
        Some(Operation::BinaryReplace(1, 2, vec![3]))
    );
    assert_eq!(parse_operation(operation("binary_replace", vec![ErlangTerm::Integer(1), ErlangTerm::Integer(2)])), None);
    assert_eq!(parse_operation(atom("int_add")), None);
    assert_eq!(parse_operation(ErlangTerm::List(vec![atom("int_add"), ErlangTerm::Integer(1)])), None);
    assert_eq!(parse_operation(ErlangTerm::Tuple(vec![atom("int_add")])), None);
}

#[test]
fn operations_are_applied_to_the_running_term() {
    assert_eq!(apply_operation(Some(ErlangTerm::Integer(1)), Operation::IntAdd(2)), ErlangTerm::Integer(3));
    assert_eq!(apply_operation(None, Operation::IntAdd(2)), ErlangTerm::Integer(2));
    assert_eq!(apply_operation(Some(ints(&[1, 2])), Operation::ListDeleteRange(0, 1)), ints(&[2]));
    assert_eq!(apply_operation(Some(ints(&[1, 2])), Operation::ListDeleteRange(1, 0)), ints(&[1, 2]));
    assert_eq!(
        apply_operation(Some(ErlangTerm::Binary(vec![1, 2, 3])), Operation::BinaryErase(1, 1)),
        ErlangTerm::Binary(vec![1, 3])
    );
    assert_eq!(
        apply_operation(Some(ErlangTerm::Binary(vec![1, 2, 3])), Operation::BinaryErase(2, -1)),
        ErlangTerm::Binary(vec![1, 2, 3])
    );
    assert_eq!(apply_operation(Some(atom("x")), Operation::ListSet(0, atom("y"))), ErlangTerm::List(vec![]));
}

#[test]
fn list_subtract_takes_floats_as_numbers() {
    let zero = ErlangTerm::Float(0.0f64.to_bits());
    let minus_zero = ErlangTerm::Float((-0.0f64).to_bits());
    let nan = ErlangTerm::Float(f64::NAN.to_bits());
    let stored = ErlangTerm::List(vec![zero, ErlangTerm::Float(f64::NAN.to_bits()), ErlangTerm::Integer(0)]);
    let result = apply_operation(Some(stored), Operation::ListSubtract(vec![minus_zero, nan]));
    assert_eq!(result, ErlangTerm::List(vec![ErlangTerm::Float(f64::NAN.to_bits()), ErlangTerm::Integer(0)]));
}

#[test]
fn one_operand_is_folded_into_the_running_term() {
    let operand = operation("list_append", vec![ints(&[3])]);
    assert_eq!(process_eetf_merge_operation(Some(ints(&[1, 2])), operand), Some(ints(&[1, 2, 3])));
    let operand = operation("list_append", vec![ints(&[3])]);
    assert_eq!(process_eetf_merge_operation(None, operand), Some(ints(&[3])));
    assert_eq!(process_eetf_merge_operation(None, atom("x")), None);
    assert_eq!(process_eetf_merge_operation(Some(atom("kept")), atom("x")), Some(atom("kept")));
    let operand = operation("list_set", vec![ErlangTerm::Integer(5), atom("x")]);
    assert_eq!(process_eetf_merge_operation(Some(ints(&[1, 2])), operand), Some(ints(&[1, 2])));
}

#[test]
fn frame_ends_where_the_codec_stops_reading() {
    for (outside, here) in samples() {
        let bytes = wire(outside);
        assert!(is_well_framed(&bytes), "{:?}", here);
        for cut in 0..bytes.len() {
            assert!(!is_well_framed(&bytes[..cut]), "{:?} cut at {}", here, cut);
            assert!(eetf::Term::decode(&bytes[..cut]).is_err(), "{:?} cut at {}", here, cut);
        }
    }
}

fn next(seed: &mut u64) -> u64 {
    *seed = seed.wrapping_mul(6364136223846793005).wrapping_add(1442695040888963407);
    *seed >> 33
}

fn some_atom(seed: &mut u64) -> Atom {
    let names = ["a", "ok", "list_append", "n@host", "h\u{e9}", ""];
    Atom::from(names[next(seed) as usize % names.len()])
}

fn some_pid(seed: &mut u64) -> Pid {
    Pid { node: some_atom(seed), id: next(seed) as u32, serial: next(seed) as u32, creation: next(seed) as u8 }
}

fn some_terms(seed: &mut u64, depth: u32) -> Vec<eetf::Term> {
    let count = next(seed) % 4;
    (0..count).map(|_| some_term(seed, depth)).collect()
}

/// A term of any kind, drawn from the seed.
fn some_term(seed: &mut u64, depth: u32) -> eetf::Term {
    let kinds = if depth == 0 { 10 } else { 17 };
    match next(seed) % kinds {
        0 => eetf::Term::from(some_atom(seed)),
        1 => eetf::Term::from(FixInteger::from(next(seed) as i32)),
        2 => eetf::Term::from(FixInteger::from((next(seed) % 300) as i32 - 20)),
        3 => eetf::Term::from(BigInteger::from((next(seed) as i64 - (1 << 30)) << (next(seed) % 33))),
        4 => eetf::Term::from(eetf::Float { value: (next(seed) as i64 - (1 << 30)) as f64 / 1024.0 }),
        5 => eetf::Term::from(some_pid(seed)),
        6 => eetf::Term::from(Port { node: some_atom(seed), id: next(seed) as u32, creation: next(seed) as u8 }),
        7 => {
            let id = (0..next(seed) % 4).map(|_| next(seed) as u32).collect();
            eetf::Term::from(Reference { node: some_atom(seed), id, creation: next(seed) as u8 })
        }
        8 => eetf::Term::from(Binary::from((0..next(seed) % 5).map(|_| next(seed) as u8).collect::<Vec<u8>>())),
        9 => {
            let bytes: Vec<u8> = (0..next(seed) % 4).map(|_| next(seed) as u8 & 7).collect();
            eetf::Term::from(BitBinary::from((bytes, 3 + (next(seed) % 6) as u8)))
        }
        10 => eetf::Term::from(ExternalFun { module: some_atom(seed), function: some_atom(seed), arity: next(seed) as u8 % 255 }),
        11 => eetf::Term::from(InternalFun::Old {
            module: some_atom(seed),
            pid: some_pid(seed),
            free_vars: some_terms(seed, depth - 1),
            index: next(seed) as i32,
            uniq: next(seed) as i32,
        }),
        12 => eetf::Term::from(InternalFun::New {
            module: some_atom(seed),
            arity: next(seed) as u8,
            pid: some_pid(seed),
            free_vars: some_terms(seed, depth - 1),
            index: next(seed) as u32,
            uniq: [next(seed) as u8; 16],
            old_index: next(seed) as i32,
            old_uniq: next(seed) as i32,
        }),
        13 => eetf::Term::from(List::from(some_terms(seed, depth - 1))),
        14 => eetf::Term::from(ImproperList::from((some_terms(seed, depth - 1), eetf::Term::from(some_atom(seed))))),
        15 => eetf::Term::from(Tuple::from(some_terms(seed, depth - 1))),
        _ => {
            let keys = some_terms(seed, depth - 1);
            let entries = keys.into_iter().map(|key| (key, some_term(seed, depth - 1))).collect::<Vec<_>>();
            eetf::Term::from(eetf::Map::from(entries))
        }
    }
}

#[test]
fn frame_passes_what_the_codec_writes() {
    let mut seed: u64 = 11;
    for _ in 0..20000 {
        let bytes = wire(some_term(&mut seed, 4));
        assert!(is_well_framed(&bytes), "{:?}", bytes);
        let read_back = eetf::Term::decode(&bytes[..]).expect("the codec reads what it wrote");
        let here = decode_term(&bytes).expect("the term is read");
        assert!(is_well_formed(&here), "{:?}", here);
        assert!(term_eq(&here, &here.clone()), "{:?}", here);
        assert_eq!(encode_term(here), Some(wire(read_back)), "{:?}", bytes);
        for cut in 0..bytes.len() {
            assert!(!is_well_framed(&bytes[..cut]), "{:?} cut at {}", bytes, cut);
        }
    }
}

#[test]
fn terms_are_equal_as_the_codec_has_them_equal_on_many_terms() {
    let mut seed: u64 = 5;
    let mut equal = 0;
    for _ in 0..20000 {
        let a = some_term(&mut seed, 2);
        let b = if next(&mut seed) % 2 == 0 { a.clone() } else { some_term(&mut seed, 2) };
        let here_a = decode_term(&wire(a.clone())).expect("the term is read");
        let here_b = decode_term(&wire(b.clone())).expect("the term is read");
        let read_a = eetf::Term::decode(&wire(a)[..]).expect("the codec reads what it wrote");
        let read_b = eetf::Term::decode(&wire(b)[..]).expect("the codec reads what it wrote");
        assert_eq!(term_eq(&here_a, &here_b), read_a == read_b, "{:?} and {:?}", here_a, here_b);
        if read_a == read_b {
            equal += 1;
        }
    }
    assert!(equal > 5000);
}

#[test]
fn decoded_terms_are_written_as_the_codec_writes_them() {
    let alphabet: [u8; 24] = [
        97, 98, 100, 104, 104, 105, 106, 107, 108, 109, 110, 115, 116, 0, 0, 0, 1, 1, 2, 2, 3, 65, 66, 255,
    ];
    let mut seed: u64 = 23;
    let mut written = 0;
    for _ in 0..300000 {
        seed = seed.wrapping_mul(6364136223846793005).wrapping_add(1442695040888963407);
        let len = 1 + (seed >> 59) as usize;
        let mut bytes = vec![131u8];
        let mut bits = seed;
        for _ in 0..len {
            bits = bits.wrapping_mul(6364136223846793005).wrapping_add(1442695040888963407);
            bytes.push(alphabet[(bits >> 33) as usize % alphabet.len()]);
        }
        assert_eq!(decode_term(&bytes).is_some(), is_well_framed(&bytes) && eetf::Term::decode(&bytes[..]).is_ok());
        if let Some(term) = decode_term(&bytes) {
            let outside = eetf::Term::decode(&bytes[..]).expect("the codec reads what was read through it");
            assert!(is_well_formed(&term));
            assert_eq!(encode_term(term.clone()), Some(wire(outside)), "{:?}", bytes);
            assert!(term_eq(&term, &term.clone()));
            written += 1;
        }
    }
    assert!(written > 1000, "{} terms were written", written);
}

#[test]
fn clone_copies_a_term_with_all_that_it_holds() {
    for (_, here) in samples() {
        let copy = here.clone();
        assert_eq!(copy, here);
    }
}
