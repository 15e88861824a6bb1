use utf8_stream::Error;
use utf8_stream::SliceSource;
use utf8_stream::Stream;
use utf8_stream::source::FaultySource;

/// One decode step, with the error reduced to its bytes. Panics on an I/O
/// failure, which no test using this helper expects.
fn step(stream: &mut Stream<SliceSource>) -> Option<Result<char, Vec<u8>>> {
    match stream.next() {
        None => None,
        Some(Ok(c)) => Some(Ok(c)),
        Some(Err(Error::Utf8Error(e))) => Some(Err(e.as_bytes().to_vec())),
        Some(Err(Error::IoError(_))) => panic!("unexpected io failure"),
    }
}

/// All decode steps of the given bytes, in order.
fn decode_units(bytes: Vec<u8>) -> Vec<Result<char, Vec<u8>>> {
    let mut stream = Stream::new(SliceSource::new(bytes));
    let mut out = Vec::new();
    loop {
        match step(&mut stream) {
            None => return out,
            Some(u) => out.push(u),
        }
    }
}

#[test]
fn test() {
    let mut stream = Stream::new(SliceSource::new(b"Hello \xF0\x90\x80World".to_vec()));

    assert_eq!(step(&mut stream), Some(Ok('H')));
    assert_eq!(step(&mut stream), Some(Ok('e')));
    assert_eq!(step(&mut stream), Some(Ok('l')));
    assert_eq!(step(&mut stream), Some(Ok('l')));
    assert_eq!(step(&mut stream), Some(Ok('o')));
    assert_eq!(step(&mut stream), Some(Ok(' ')));
    assert_eq!(step(&mut stream), Some(Err(vec![0xF0, 0x90, 0x80])));
    assert_eq!(step(&mut stream), Some(Ok('W')));
    assert_eq!(step(&mut stream), Some(Ok('o')));
    assert_eq!(step(&mut stream), Some(Ok('r')));
    assert_eq!(step(&mut stream), Some(Ok('l')));
    assert_eq!(step(&mut stream), Some(Ok('d')));
    assert_eq!(step(&mut stream), None);
}

#[test]
fn ascii_passthrough() {
    let mut bytes = Vec::new();
    for b in 0x00..=0x7Fu8 {
        bytes.push(b);
    }
    let units = decode_units(bytes.clone());
    assert_eq!(units.len(), bytes.len());
    for (i, b) in bytes.iter().enumerate() {
        assert_eq!(units[i], Ok(*b as char));
    }
}

#[test]
fn round_trip() {
    let text = "ascii, caf\u{e9}, \u{20ac}uro, snowman \u{2603}, \u{1F600} grin, r\u{e4}ksm\u{f6}rg\u{e5}s";
    let units = decode_units(text.as_bytes().to_vec());
    let chars: Vec<char> = text.chars().collect();
    assert_eq!(units.len(), chars.len());
    for (i, c) in chars.iter().enumerate() {
        assert_eq!(units[i], Ok(*c));
    }
}

#[test]
fn truncated_four_byte_sequence() {
    let mut stream = Stream::new(SliceSource::new(vec![0xF0, 0x90]));
    assert_eq!(step(&mut stream), Some(Err(vec![0xF0, 0x90])));
    assert_eq!(step(&mut stream), None);
    assert_eq!(step(&mut stream), None);
}

#[test]
fn truncated_two_and_three_byte_sequences() {
    assert_eq!(decode_units(vec![0xC2]), vec![Err(vec![0xC2])]);
    assert_eq!(decode_units(vec![0xE1, 0x80]), vec![Err(vec![0xE1, 0x80])]);
    assert_eq!(decode_units(vec![0xF3, 0xAB, 0x9D]), vec![Err(vec![0xF3, 0xAB, 0x9D])]);
}

#[test]
fn resynchronization_after_bad_continuation() {
    let mut stream = Stream::new(SliceSource::new(vec![0xE0, 0x41]));
    assert_eq!(step(&mut stream), Some(Err(vec![0xE0])));
    assert_eq!(step(&mut stream), Some(Ok('A')));
    assert_eq!(step(&mut stream), None);
}

#[test]
fn fourth_byte_restaged() {
    // The error of an attempt that fails at its fourth byte holds three
    // bytes; the offending byte opens the next attempt.
    let units = decode_units(vec![0xF0, 0x90, 0x80, 0x20]);
    assert_eq!(units, vec![Err(vec![0xF0, 0x90, 0x80]), Ok(' ')]);
}

#[test]
fn invalid_lead_bytes() {
    for lead in [0x80u8, 0xBF, 0xC0, 0xC1, 0xF5, 0xFF] {
        // Alone: one 1-byte error, nothing more.
        assert_eq!(decode_units(vec![lead]), vec![Err(vec![lead])]);
        // Followed by ASCII: no lookahead was consumed.
        assert_eq!(decode_units(vec![lead, 0x41]), vec![Err(vec![lead]), Ok('A')]);
    }
}

#[test]
fn surrogates_rejected() {
    let units = decode_units(vec![0xED, 0xA0, 0x80]);
    assert_eq!(units, vec![Err(vec![0xED]), Err(vec![0xA0]), Err(vec![0x80])]);
}

#[test]
fn overlong_encodings_rejected() {
    assert_eq!(decode_units(vec![0xC0, 0xAF]), vec![Err(vec![0xC0]), Err(vec![0xAF])]);
    assert_eq!(
        decode_units(vec![0xE0, 0x80, 0xAF]),
        vec![Err(vec![0xE0]), Err(vec![0x80]), Err(vec![0xAF])]
    );
    assert_eq!(decode_units(vec![0xF0, 0x80]), vec![Err(vec![0xF0]), Err(vec![0x80])]);
}

#[test]
fn boundary_scalars() {
    assert_eq!(decode_units(vec![0x7F]), vec![Ok('\u{7F}')]);
    assert_eq!(decode_units(vec![0xC2, 0x80]), vec![Ok('\u{80}')]);
    assert_eq!(decode_units(vec![0xDF, 0xBF]), vec![Ok('\u{7FF}')]);
    assert_eq!(decode_units(vec![0xE0, 0xA0, 0x80]), vec![Ok('\u{800}')]);
    assert_eq!(decode_units(vec![0xED, 0x9F, 0xBF]), vec![Ok('\u{D7FF}')]);
    assert_eq!(decode_units(vec![0xEE, 0x80, 0x80]), vec![Ok('\u{E000}')]);
    assert_eq!(decode_units(vec![0xEF, 0xBF, 0xBF]), vec![Ok('\u{FFFF}')]);
    assert_eq!(decode_units(vec![0xF0, 0x90, 0x80, 0x80]), vec![Ok('\u{10000}')]);
    assert_eq!(decode_units(vec![0xF4, 0x8F, 0xBF, 0xBF]), vec![Ok('\u{10FFFF}')]);
    assert_eq!(decode_units(vec![0xC3, 0xA9]), vec![Ok('\u{E9}')]);
    assert_eq!(decode_units(vec![0xE2, 0x82, 0xAC]), vec![Ok('\u{20AC}')]);
}

#[test]
fn decode_to_end_collects_all_units() {
    let mut stream = Stream::new(SliceSource::new(b"Hello \xF0\x90\x80World".to_vec()));
    let units = stream.decode_to_end().ok().unwrap();
    assert_eq!(units.len(), 12);
    match units[0] {
        Ok(c) => assert_eq!(c, 'H'),
        _ => panic!("expected 'H'"),
    }
    match &units[6] {
        Err(e) => assert_eq!(e.as_bytes(), &[0xF0, 0x90, 0x80]),
        _ => panic!("expected the three-byte error"),
    }
    match units[7] {
        Ok(c) => assert_eq!(c, 'W'),
        _ => panic!("expected 'W'"),
    }
    assert!(stream.next().is_none());
}

#[test]
fn decode_to_end_stops_at_io_failure() {
    let mut stream = Stream::new(FaultySource::new(vec![0x61, 0x62], 1));
    match stream.decode_to_end() {
        Err(Error::IoError(_)) => {}
        _ => panic!("expected the io failure to stop the collection"),
    }
    match stream.next() {
        Some(Ok(c)) => assert_eq!(c, 'b'),
        _ => panic!("expected 'b' after the failure"),
    }
    assert!(stream.next().is_none());
}

/// The first decode error of the given bytes.
fn first_error(bytes: Vec<u8>) -> utf8_stream::Utf8Error {
    let mut stream = Stream::new(SliceSource::new(bytes));
    loop {
        match stream.next() {
            Some(Err(Error::Utf8Error(e))) => return e,
            Some(_) => {}
            None => panic!("no decode error in the input"),
        }
    }
}

#[test]
fn errors_equal_by_contents() {
    let from_bad_continuation = first_error(vec![0xE0, 0x41]);
    let from_truncation = first_error(vec![0xE0]);
    let other = first_error(vec![0xF0, 0x90]);
    assert!(from_bad_continuation == from_truncation);
    assert!(from_bad_continuation != other);
    assert_eq!(from_truncation.as_bytes(), &[0xE0]);
    assert_eq!(other.as_bytes(), &[0xF0, 0x90]);
}

#[test]
fn continuation_accumulation_is_exact() {
    // 0xE9 = (0x03 << 6) | (0xA9 & 0x3F): the second byte of "é".
    assert_eq!(utf8_stream::stream::acc_cont_byte(0x03, 0xA9), 0xE9);
    assert_eq!(utf8_stream::stream::acc_cont_byte(0x00, 0x80), 0x00);
    assert_eq!(utf8_stream::stream::acc_cont_byte(0x10F, 0xBF), 0x43FF);
}

#[test]
fn empty_input() {
    let mut stream = Stream::new(SliceSource::new(Vec::new()));
    assert_eq!(step(&mut stream), None);
    assert_eq!(step(&mut stream), None);
    assert_eq!(step(&mut stream), None);
}

#[test]
fn end_of_stream_is_sticky() {
    let mut stream = Stream::new(SliceSource::new(vec![0x61]));
    assert_eq!(step(&mut stream), Some(Ok('a')));
    for _ in 0..8 {
        assert_eq!(step(&mut stream), None);
    }
}

#[test]
fn io_failure_at_start_is_surfaced_and_stream_continues() {
    let mut stream = Stream::new(FaultySource::new(vec![0x61, 0x62], 0));
    match stream.next() {
        Some(Err(Error::IoError(_))) => {}
        _ => panic!("expected an io failure first"),
    }
    match stream.next() {
        Some(Ok(c)) => assert_eq!(c, 'a'),
        _ => panic!("expected 'a' after the failure"),
    }
    match stream.next() {
        Some(Ok(c)) => assert_eq!(c, 'b'),
        _ => panic!("expected 'b'"),
    }
    assert!(stream.next().is_none());
}

#[test]
fn io_failure_mid_sequence_discards_the_attempt() {
    // The lead byte was consumed when the failure hits; it is not re-offered.
    let mut stream = Stream::new(FaultySource::new(vec![0xC3, 0xA9], 1));
    match stream.next() {
        Some(Err(Error::IoError(_))) => {}
        _ => panic!("expected an io failure"),
    }
    match stream.next() {
        Some(Err(Error::Utf8Error(e))) => assert_eq!(e.as_bytes(), &[0xA9]),
        _ => panic!("expected the stray continuation byte to be an error"),
    }
    assert!(stream.next().is_none());
}

#[test]
fn faulty_source_without_reachable_failure_decodes_normally() {
    let mut stream = Stream::new(FaultySource::new(vec![0x68, 0x69], 5));
    match stream.next() {
        Some(Ok(c)) => assert_eq!(c, 'h'),
        _ => panic!("expected 'h'"),
    }
    match stream.next() {
        Some(Ok(c)) => assert_eq!(c, 'i'),
        _ => panic!("expected 'i'"),
    }
    assert!(stream.next().is_none());
}
