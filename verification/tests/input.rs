use calcr::input::{
    consume_buffer, is_utf8_continue, is_utf8_lead, parse_esc_seq, parse_key, utf8_len, Key,
};

fn buffer(bytes: &[u8]) -> [u8; 32] {
    let mut buf = [0u8; 32];
    buf[..bytes.len()].copy_from_slice(bytes);
    buf
}

#[test]
fn lead_and_continuation_bytes() {
    for byte in 0..=255u8 {
        assert_eq!(is_utf8_lead(byte), byte & 0b1100_0000 == 0b1100_0000, "{:#x}", byte);
        assert_eq!(is_utf8_continue(byte), byte & 0b1100_0000 == 0b1000_0000, "{:#x}", byte);
    }
    assert!(is_utf8_lead("π".as_bytes()[0]));
    assert!(is_utf8_continue("π".as_bytes()[1]));
    assert!(!is_utf8_lead(b'a'));
    assert!(!is_utf8_continue(b'a'));
}

#[test]
fn length_of_a_character_from_its_first_byte() {
    assert_eq!(utf8_len("π".as_bytes()[0]), 2);
    assert_eq!(utf8_len("日".as_bytes()[0]), 3);
    assert_eq!(utf8_len("𐍈".as_bytes()[0]), 4);
    assert_eq!(utf8_len(0xC0), 2);
    assert_eq!(utf8_len(0xDF), 2);
    assert_eq!(utf8_len(0xE0), 3);
    assert_eq!(utf8_len(0xF0), 4);
    assert_eq!(utf8_len(0xF8), 5);
    assert_eq!(utf8_len(0xFC), 6);
    assert_eq!(utf8_len(0xFE), 7);
    assert_eq!(utf8_len(0xFF), 8);
    for lead in 0xC0..=0xFFu8 {
        assert_eq!(utf8_len(lead), lead.leading_ones() as usize, "{:#x}", lead);
    }
}

#[test]
fn escape_sequences_of_the_keys() {
    assert_eq!(parse_esc_seq(&buffer(b"\x1B[A")), (Key::Up, 3));
    assert_eq!(parse_esc_seq(&buffer(b"\x1B[B")), (Key::Down, 3));
    assert_eq!(parse_esc_seq(&buffer(b"\x1B[C")), (Key::Right, 3));
    assert_eq!(parse_esc_seq(&buffer(b"\x1B[D")), (Key::Left, 3));
    assert_eq!(parse_esc_seq(&buffer(b"\x1BOH")), (Key::Home, 3));
    assert_eq!(parse_esc_seq(&buffer(b"\x1BOF")), (Key::End, 3));
    assert_eq!(parse_esc_seq(&buffer(b"\x1B[5~")), (Key::PgUp, 4));
    assert_eq!(parse_esc_seq(&buffer(b"\x1B[6~")), (Key::PgDown, 4));
    assert_eq!(parse_esc_seq(&buffer(b"\x1B[2~")), (Key::Insert, 4));
    assert_eq!(parse_esc_seq(&buffer(b"\x1B[3~")), (Key::Delete, 4));
    assert_eq!(parse_esc_seq(&buffer(b"\x1BOP")), (Key::F(1), 3));
    assert_eq!(parse_esc_seq(&buffer(b"\x1BOQ")), (Key::F(2), 3));
    assert_eq!(parse_esc_seq(&buffer(b"\x1BOR")), (Key::F(3), 3));
    assert_eq!(parse_esc_seq(&buffer(b"\x1BOS")), (Key::F(4), 3));
    assert_eq!(parse_esc_seq(&buffer(b"\x1B[15~")), (Key::F(5), 5));
    assert_eq!(parse_esc_seq(&buffer(b"\x1B[17~")), (Key::F(6), 5));
    assert_eq!(parse_esc_seq(&buffer(b"\x1B[18~")), (Key::F(7), 5));
    assert_eq!(parse_esc_seq(&buffer(b"\x1B[19~")), (Key::F(8), 5));
    assert_eq!(parse_esc_seq(&buffer(b"\x1B[20~")), (Key::F(9), 5));
    assert_eq!(parse_esc_seq(&buffer(b"\x1B[21~")), (Key::F(10), 5));
    assert_eq!(parse_esc_seq(&buffer(b"\x1B[23~")), (Key::F(11), 5));
    assert_eq!(parse_esc_seq(&buffer(b"\x1B[24~")), (Key::F(12), 5));
}

#[test]
fn other_escape_sequences() {
    // what follows the bracket is not known
    assert_eq!(parse_esc_seq(&buffer(b"\x1B[Z")), (Key::Unknown, 2));
    assert_eq!(parse_esc_seq(&buffer(b"\x1B[5x")), (Key::Unknown, 2));
    assert_eq!(parse_esc_seq(&buffer(b"\x1B[16~")), (Key::Unknown, 2));
    assert_eq!(parse_esc_seq(&buffer(b"\x1B[")), (Key::Unknown, 2));
    // the escape key by itself
    assert_eq!(parse_esc_seq(&buffer(b"\x1B")), (Key::Esc, 1));
    assert_eq!(parse_esc_seq(&buffer(b"\x1Bx")), (Key::Esc, 1));
    assert_eq!(parse_esc_seq(&buffer(b"\x1BOZ")), (Key::Esc, 1));
    // sequences are read from the front of the buffer only
    assert_eq!(parse_esc_seq(&buffer(b"\x1B[A\x1B[B")), (Key::Up, 3));
}

#[test]
fn plain_keys() {
    assert_eq!(parse_key(&buffer(b"a")), Some((Key::Char('a'), 1)));
    assert_eq!(parse_key(&buffer(b" ")), Some((Key::Char(' '), 1)));
    assert_eq!(parse_key(&buffer(b"~")), Some((Key::Char('~'), 1)));
    assert_eq!(parse_key(&buffer(b"\x7F")), Some((Key::Backspace, 1)));
    assert_eq!(parse_key(&buffer(b"\t")), Some((Key::Tab, 1)));
    assert_eq!(parse_key(&buffer(b"\n")), Some((Key::Enter, 1)));
    assert_eq!(parse_key(&buffer(b"\x1B[D")), Some((Key::Left, 3)));
    assert_eq!(parse_key(&buffer(b"\x1B")), Some((Key::Esc, 1)));
    assert_eq!(parse_key(&buffer(b"\x01")), Some((Key::Unknown, 1)));
    assert_eq!(parse_key(&buffer(b"\r")), Some((Key::Unknown, 1)));
    assert_eq!(parse_key(&buffer(&[0x80])), Some((Key::Unknown, 1)));
    assert_eq!(parse_key(&buffer(&[0])), Some((Key::Unknown, 1)));
    // a character of several bytes is left to the caller
    assert_eq!(parse_key(&buffer("π".as_bytes())), None);
    assert_eq!(parse_key(&buffer("日本".as_bytes())), None);
}

#[test]
fn bytes_are_taken_from_the_front() {
    let mut buf = buffer(b"abcdef");
    assert_eq!(consume_buffer(&mut buf, 6, 2), 4);
    assert_eq!(&buf[..6], b"cdef\0\0");

    let mut buf = buffer(b"abc");
    assert_eq!(consume_buffer(&mut buf, 3, 3), 0);
    assert_eq!(buf, [0u8; 32]);

    let mut buf = buffer(b"abc");
    assert_eq!(consume_buffer(&mut buf, 3, 0), 3);
    assert_eq!(buf, buffer(b"abc"));
}

#[test]
fn a_full_buffer_is_padded_with_zeros() {
    let mut buf = [7u8; 32];
    buf[31] = 9;
    assert_eq!(consume_buffer(&mut buf, 32, 1), 31);
    assert_eq!(buf[30], 9);
    assert_eq!(buf[31], 0);
    assert_eq!(buf[0], 7);
}

#[test]
fn bytes_behind_the_filled_part_stay() {
    let mut buf = buffer(b"abXY");
    assert_eq!(consume_buffer(&mut buf, 2, 1), 1);
    // the first two places are shifted, the rest is as it was
    assert_eq!(&buf[..4], b"bXXY");
}
