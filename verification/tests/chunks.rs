use png_chunks::chunk::{Chunk, FromBytes, CHUNK_IDAT, CHUNK_IEND, CHUNK_IHDR, IHDR};
use png_chunks::crc::crc32;
use png_chunks::error::Error;
use png_chunks::{png_size, PNG};

const HEADER_PAYLOAD: [u8; 13] = [0, 0, 0, 100, 0, 0, 0, 50, 8, 2, 0, 0, 0];
const HEADER_CRC: [u8; 4] = [37, 87, 233, 233];
const TERMINAL_CRC: [u8; 4] = [174, 66, 96, 130];

/// signature, header chunk (100 x 50, depth 8, truecolor), terminal chunk
fn sample() -> Vec<u8> {
    let mut buf = PNG.to_vec();
    buf.extend_from_slice(&[0, 0, 0, 13]);
    buf.extend_from_slice(b"IHDR");
    buf.extend_from_slice(&HEADER_PAYLOAD);
    buf.extend_from_slice(&HEADER_CRC);
    buf.extend_from_slice(&[0, 0, 0, 0]);
    buf.extend_from_slice(b"IEND");
    buf.extend_from_slice(&TERMINAL_CRC);
    buf
}

fn framed(tag: [u8; 4], data: &[u8]) -> Vec<u8> {
    let mut out = (data.len() as u32).to_be_bytes().to_vec();
    out.extend_from_slice(&tag);
    out.extend_from_slice(data);
    out.extend_from_slice(&crc32(tag, data).to_be_bytes());
    out
}

fn missing_terminal() -> Error {
    Error::InvalidData("Missing terminal chunk".to_owned())
}

fn header_not_first() -> Error {
    Error::InvalidData("header chunk is not first or missing".to_owned())
}

#[test]
fn crc32_of_the_check_string() {
    assert_eq!(crc32(*b"1234", b"56789"), 0xCBF4_3926);
}

#[test]
fn crc32_of_a_bare_tag() {
    assert_eq!(crc32(CHUNK_IEND, &[]), 0xAE42_6082);
    assert_eq!(crc32(CHUNK_IHDR, &[]), 0xA8A1_AE0A);
    assert_eq!(crc32(CHUNK_IDAT, &[]).to_be_bytes(), [53, 175, 6, 30]);
}

#[test]
fn crc32_of_tag_and_payload() {
    assert_eq!(crc32(CHUNK_IHDR, &HEADER_PAYLOAD), 0x2557_E9E9);
    assert_eq!(crc32(CHUNK_IDAT, &[1, 2, 3]).to_be_bytes(), [83, 55, 23, 173]);
}

#[test]
fn crc32_tells_a_flipped_bit() {
    let clean = crc32(CHUNK_IHDR, &HEADER_PAYLOAD);
    for at in 0..13 {
        for bit in 0..8 {
            let mut payload = HEADER_PAYLOAD;
            payload[at] ^= 1 << bit;
            assert_ne!(crc32(CHUNK_IHDR, &payload), clean);
        }
    }
    for at in 0..4 {
        for bit in 0..8 {
            let mut tag = CHUNK_IHDR;
            tag[at] ^= 1 << bit;
            assert_ne!(crc32(tag, &HEADER_PAYLOAD), clean);
        }
    }
}

#[test]
fn sample_parses_into_two_chunks() {
    let chunks = Chunk::from_bytes(&sample()).unwrap();
    assert_eq!(chunks.len(), 2);
    assert_eq!(chunks[0].len, 13);
    assert_eq!(chunks[0].type_code, CHUNK_IHDR);
    assert_eq!(chunks[0].data, HEADER_PAYLOAD.to_vec());
    assert_eq!(chunks[0].crc, HEADER_CRC);
    assert_eq!(chunks[1].len, 0);
    assert_eq!(chunks[1].type_code, CHUNK_IEND);
    assert_eq!(chunks[1].data, Vec::<u8>::new());
    assert_eq!(chunks[1].crc, TERMINAL_CRC);
}

#[test]
fn sample_header_decodes() {
    let chunks = Chunk::from_bytes(&sample()).unwrap();
    let header = IHDR::from_bytes(&chunks[0].data).unwrap();
    assert_eq!(
        header,
        IHDR {
            width: 100,
            height: 50,
            bit_depth: 8,
            color_type: 2,
            compression_method: 0,
            filter_method: 0,
            interlace_method: 0,
        }
    );
}

#[test]
fn sample_quick_size() {
    assert_eq!(png_size(&sample()), Ok((100, 50)));
}

#[test]
fn corrupted_header_payload_fails_the_checksum() {
    let mut buf = sample();
    buf[19] ^= 0x01;
    assert_eq!(Chunk::from_bytes(&buf).unwrap_err(), Error::InvalidCRC);
}

#[test]
fn missing_terminal_checksum_is_a_length_error() {
    let mut buf = sample();
    buf.truncate(buf.len() - 4);
    assert_eq!(Chunk::from_bytes(&buf).unwrap_err(), Error::InvalidLength);
}

#[test]
fn every_changed_byte_under_a_checksum_is_caught() {
    let clean = sample();
    // tag and payload of the header chunk, then the tag of the terminal chunk
    let covered = (12..29).chain(37..41);
    for at in covered {
        for bit in 0..8 {
            let mut buf = clean.clone();
            buf[at] ^= 1 << bit;
            assert_eq!(Chunk::from_bytes(&buf).unwrap_err(), Error::InvalidCRC);
        }
    }
}

#[test]
fn every_truncation_is_rejected() {
    let clean = sample();
    for n in 0..clean.len() {
        let e = Chunk::from_bytes(&clean[..n]).unwrap_err();
        if n == 33 {
            assert_eq!(e, missing_terminal());
        } else {
            assert_eq!(e, Error::InvalidLength);
        }
    }
}

#[test]
fn empty_buffer_is_a_length_error() {
    assert_eq!(Chunk::from_bytes(&[]).unwrap_err(), Error::InvalidLength);
    assert_eq!(Chunk::from_bytes(&[0]).unwrap_err(), Error::InvalidLength);
    assert_eq!(Chunk::from_bytes(&PNG).unwrap_err(), Error::InvalidLength);
}

#[test]
fn signature_is_optional() {
    let with = sample();
    let chunks = Chunk::from_bytes(&with[8..]).unwrap();
    assert_eq!(chunks.len(), 2);
    assert_eq!(chunks[0].data, HEADER_PAYLOAD.to_vec());
}

#[test]
fn walk_stops_at_the_terminal_chunk() {
    let mut buf = sample();
    buf.extend_from_slice(&[1, 2, 3, 4, 5]);
    assert_eq!(Chunk::from_bytes(&buf).unwrap().len(), 2);
}

#[test]
fn order_of_chunks_is_kept() {
    let mut buf = PNG.to_vec();
    buf.extend(framed(CHUNK_IHDR, &HEADER_PAYLOAD));
    buf.extend(framed(CHUNK_IDAT, &[1, 2, 3]));
    buf.extend(framed(*b"tEXt", &[]));
    buf.extend(framed(CHUNK_IDAT, &[9; 300]));
    buf.extend(framed(CHUNK_IEND, &[]));
    let chunks = Chunk::from_bytes(&buf).unwrap();
    let tags: Vec<[u8; 4]> = chunks.iter().map(|c| c.type_code).collect();
    assert_eq!(tags, vec![CHUNK_IHDR, CHUNK_IDAT, *b"tEXt", CHUNK_IDAT, CHUNK_IEND]);
    assert_eq!(chunks[1].data, vec![1, 2, 3]);
    assert_eq!(chunks[2].len, 0);
    assert_eq!(chunks[3].len, 300);
    assert_eq!(chunks[3].data, vec![9; 300]);
    for c in &chunks {
        assert_eq!(c.data.len(), c.len as usize);
        assert_eq!(crc32(c.type_code, &c.data).to_be_bytes(), c.crc);
    }
}

#[test]
fn empty_chunk_does_not_end_the_walk() {
    let mut buf = framed(CHUNK_IHDR, &HEADER_PAYLOAD);
    buf.extend(framed(*b"tEXt", &[]));
    assert_eq!(Chunk::from_bytes(&buf).unwrap_err(), missing_terminal());
    buf.extend(framed(CHUNK_IEND, &[]));
    assert_eq!(Chunk::from_bytes(&buf).unwrap().len(), 3);
}

#[test]
fn terminal_chunk_may_carry_a_payload() {
    let mut buf = framed(CHUNK_IHDR, &HEADER_PAYLOAD);
    buf.extend(framed(CHUNK_IEND, &[7, 7]));
    let chunks = Chunk::from_bytes(&buf).unwrap();
    assert_eq!(chunks[1].data, vec![7, 7]);
}

#[test]
fn tags_are_compared_byte_for_byte() {
    let mut buf = framed(CHUNK_IHDR, &HEADER_PAYLOAD);
    buf.extend(framed(*b"iend", &[]));
    assert_eq!(Chunk::from_bytes(&buf).unwrap_err(), missing_terminal());
    let mut buf = framed(*b"ihdr", &HEADER_PAYLOAD);
    buf.extend(framed(CHUNK_IEND, &[]));
    assert_eq!(Chunk::from_bytes(&buf).unwrap_err(), header_not_first());
}

#[test]
fn header_must_come_first() {
    let mut buf = PNG.to_vec();
    buf.extend(framed(CHUNK_IDAT, &[1, 2, 3]));
    buf.extend(framed(CHUNK_IHDR, &HEADER_PAYLOAD));
    buf.extend(framed(CHUNK_IEND, &[]));
    assert_eq!(Chunk::from_bytes(&buf).unwrap_err(), header_not_first());
    assert_eq!(Chunk::from_bytes(&framed(CHUNK_IEND, &[])).unwrap_err(), header_not_first());
}

#[test]
fn earlier_failure_wins_over_a_wrong_first_chunk() {
    let mut buf = framed(CHUNK_IDAT, &[1, 2, 3]);
    buf[9] ^= 0x80;
    buf.extend(framed(CHUNK_IEND, &[]));
    assert_eq!(Chunk::from_bytes(&buf).unwrap_err(), Error::InvalidCRC);
}

#[test]
fn missing_terminal_chunk() {
    let mut buf = PNG.to_vec();
    buf.extend(framed(CHUNK_IHDR, &HEADER_PAYLOAD));
    assert_eq!(Chunk::from_bytes(&buf).unwrap_err(), missing_terminal());
}

#[test]
fn stray_bytes_behind_a_chunk_are_a_length_error() {
    for stray in 1..12 {
        let mut buf = framed(CHUNK_IHDR, &HEADER_PAYLOAD);
        buf.extend(vec![0; stray]);
        assert_eq!(Chunk::from_bytes(&buf).unwrap_err(), Error::InvalidLength);
    }
}

#[test]
fn declared_length_beyond_the_buffer() {
    let mut buf = framed(CHUNK_IHDR, &HEADER_PAYLOAD);
    buf[3] = 14;
    assert_eq!(Chunk::from_bytes(&buf).unwrap_err(), Error::InvalidLength);
    buf[0] = 0xFF;
    buf[1] = 0xFF;
    buf[2] = 0xFF;
    buf[3] = 0xFF;
    assert_eq!(Chunk::from_bytes(&buf).unwrap_err(), Error::InvalidLength);
}

#[test]
fn wrong_stored_checksum() {
    let mut buf = sample();
    buf[29] ^= 0x10;
    assert_eq!(Chunk::from_bytes(&buf).unwrap_err(), Error::InvalidCRC);
    let mut buf = sample();
    let last = buf.len() - 1;
    buf[last] ^= 0x01;
    assert_eq!(Chunk::from_bytes(&buf).unwrap_err(), Error::InvalidCRC);
}

#[test]
fn unchecked_agrees_with_checked() {
    let mut buf = PNG.to_vec();
    buf.extend(framed(CHUNK_IHDR, &HEADER_PAYLOAD));
    buf.extend(framed(CHUNK_IDAT, &[1, 2, 3]));
    buf.extend(framed(CHUNK_IEND, &[]));
    let checked = Chunk::from_bytes(&buf).unwrap();
    let trusted = Chunk::from_bytes_unchecked(&buf);
    assert_eq!(checked.len(), trusted.len());
    for (a, b) in checked.iter().zip(trusted.iter()) {
        assert_eq!(a.len, b.len);
        assert_eq!(a.type_code, b.type_code);
        assert_eq!(a.data, b.data);
        assert_eq!(a.crc, b.crc);
    }
}

#[test]
fn unchecked_tests_no_checksum_and_no_order() {
    let mut buf = framed(CHUNK_IDAT, &[1, 2, 3]);
    buf[8] = 42;
    buf.extend(framed(CHUNK_IEND, &[]));
    let chunks = Chunk::from_bytes_unchecked(&buf);
    assert_eq!(chunks.len(), 2);
    assert_eq!(chunks[0].type_code, CHUNK_IDAT);
    assert_eq!(chunks[0].data, vec![42, 2, 3]);
    assert_eq!(chunks[1].type_code, CHUNK_IEND);
}

#[test]
fn header_fields_sit_at_their_offsets() {
    let bytes: [u8; 13] = [1, 2, 3, 4, 5, 6, 7, 8, 9, 10, 11, 12, 13];
    let header = IHDR::from_bytes(&bytes).unwrap();
    assert_eq!(header.width, 0x0102_0304);
    assert_eq!(header.height, 0x0506_0708);
    assert_eq!(header.bit_depth, 9);
    assert_eq!(header.color_type, 10);
    assert_eq!(header.compression_method, 11);
    assert_eq!(header.filter_method, 12);
    assert_eq!(header.interlace_method, 13);
    let mut again = header.width.to_be_bytes().to_vec();
    again.extend_from_slice(&header.height.to_be_bytes());
    again.extend_from_slice(&[
        header.bit_depth,
        header.color_type,
        header.compression_method,
        header.filter_method,
        header.interlace_method,
    ]);
    assert_eq!(again, bytes.to_vec());
}

#[test]
fn header_takes_the_largest_numbers() {
    let header = IHDR::from_bytes(&[0xFF; 13]).unwrap();
    assert_eq!(header.width, u32::MAX);
    assert_eq!(header.height, u32::MAX);
    assert_eq!(header.interlace_method, 0xFF);
}

#[test]
fn header_values_are_not_judged() {
    let header = IHDR::from_bytes(&[0, 0, 0, 0, 0, 0, 0, 0, 3, 7, 1, 1, 9]).unwrap();
    assert_eq!(header.width, 0);
    assert_eq!(header.bit_depth, 3);
    assert_eq!(header.color_type, 7);
}

#[test]
fn header_of_another_length_is_rejected() {
    assert_eq!(IHDR::from_bytes(&[]), Err(Error::InvalidLength));
    assert_eq!(IHDR::from_bytes(&[0; 12]), Err(Error::InvalidLength));
    assert_eq!(IHDR::from_bytes(&[0; 14]), Err(Error::InvalidLength));
}

#[test]
fn header_unchecked_agrees_with_checked() {
    assert_eq!(
        IHDR::from_bytes_unchecked(&HEADER_PAYLOAD),
        IHDR::from_bytes(&HEADER_PAYLOAD).unwrap()
    );
}

#[test]
fn try_convert_keeps_the_frame() {
    let chunks = Chunk::from_bytes(&sample()).unwrap();
    let typed: Chunk<IHDR> = chunks[0].try_convert().unwrap();
    assert_eq!(typed.len, 13);
    assert_eq!(typed.type_code, CHUNK_IHDR);
    assert_eq!(typed.crc, HEADER_CRC);
    assert_eq!(typed.data.width, 100);
    assert_eq!(typed.data.height, 50);
    assert_eq!(typed.data.bit_depth, 8);
    assert_eq!(typed.data.color_type, 2);
}

#[test]
fn try_convert_hands_on_the_failure() {
    let chunks = Chunk::from_bytes(&sample()).unwrap();
    let r: Result<Chunk<IHDR>, Error> = chunks[1].try_convert();
    assert_eq!(r.unwrap_err(), Error::InvalidLength);
}

#[test]
fn convert_unchecked_agrees_with_try_convert() {
    let chunks = Chunk::from_bytes(&sample()).unwrap();
    let a: Chunk<IHDR> = chunks[0].try_convert().unwrap();
    let b: Chunk<IHDR> = chunks[0].convert_unchecked();
    assert_eq!(a.data, b.data);
    assert_eq!(a.len, b.len);
    assert_eq!(a.type_code, b.type_code);
    assert_eq!(a.crc, b.crc);
}

#[test]
fn quick_size_agrees_with_the_decoded_header() {
    let mut payload = HEADER_PAYLOAD;
    payload[0] = 0x12;
    payload[7] = 0x34;
    let mut buf = PNG.to_vec();
    buf.extend(framed(CHUNK_IHDR, &payload));
    buf.extend(framed(CHUNK_IEND, &[]));
    let chunks = Chunk::from_bytes(&buf).unwrap();
    let header = IHDR::from_bytes(&chunks[0].data).unwrap();
    assert_eq!(png_size(&buf), Ok((header.width, header.height)));
    assert_eq!(header.width, 0x1200_0064);
    assert_eq!(header.height, 0x34);
}

#[test]
fn quick_size_wants_the_signature() {
    let buf = sample();
    let e = Error::InvalidData("Invalid PNG!".to_owned());
    assert_eq!(png_size(&buf[8..]), Err(e.clone()));
    assert_eq!(png_size(&[]), Err(e.clone()));
    let mut wrong = buf.clone();
    wrong[7] = 11;
    assert_eq!(png_size(&wrong), Err(e));
}

#[test]
fn quick_size_wants_twenty_four_bytes() {
    let buf = sample();
    let e = Error::InvalidData("Invalid PNG!".to_owned());
    assert_eq!(png_size(&buf[..23]), Err(e));
    assert_eq!(png_size(&buf[..24]), Ok((100, 50)));
}

#[test]
fn quick_size_tests_nothing_else() {
    let mut buf = sample();
    buf[12] = b'x';
    buf[30] ^= 0xFF;
    assert_eq!(png_size(&buf), Ok((100, 50)));
}

#[test]
fn errors_compare_and_print() {
    assert_ne!(Error::InvalidLength, Error::InvalidCRC);
    assert_eq!(Error::invalid_data("x"), Error::InvalidData("x".to_owned()));
    assert_eq!(format!("{:?}", Error::InvalidCRC), "InvalidCRC");
    assert_eq!(format!("{:?}", missing_terminal()), "InvalidData(\"Missing terminal chunk\")");
}
