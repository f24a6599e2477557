use cold_string::vint::VarInt;
use cold_string::word::{tag_addr, untag_addr, EncodedWord};
use cold_string::ColdString;

#[test]
fn empty_string_is_short_inline() {
    let s = ColdString::new("");
    assert!(s.is_inline());
    assert!(s.is_empty());
    assert_eq!(s.len(), 0);
    assert_eq!(s.as_str(), "");
    assert_eq!(s.to_word().to_bytes(), [0b1111_1000, 0, 0, 0, 0, 0, 0, 0]);
    assert_eq!(s.heap_size(), 0);
}

#[test]
fn six_bytes_are_short_inline() {
    let s = ColdString::new("qwerty");
    assert!(s.is_inline());
    assert_eq!(s.len(), 6);
    assert_eq!(s.as_str(), "qwerty");
    assert_eq!(
        s.to_word().to_bytes(),
        [0b1111_1110, b'q', b'w', b'e', b'r', b't', b'y', 0]
    );
    assert_eq!(s.to_word().inline_len(), 6);
}

#[test]
fn seven_bytes_fill_the_short_form() {
    let s = ColdString::new("1234567");
    assert!(s.is_inline());
    assert_eq!(
        s.to_word().to_bytes(),
        [0b1111_1111, b'1', b'2', b'3', b'4', b'5', b'6', b'7']
    );
    assert_eq!(s.as_str(), "1234567");
}

#[test]
fn eight_bytes_are_full_inline() {
    let s = ColdString::new("12345678");
    assert!(s.is_inline());
    assert_eq!(s.len(), 8);
    assert_eq!(s.to_word().to_bytes(), *b"12345678");
    assert_eq!(s.to_word().to_bytes()[0], 0x31);
    assert_eq!(s.to_word().inline_len(), 8);
    assert_eq!(s.as_str(), "12345678");
    assert_eq!(s.heap_size(), 0);
}

#[test]
fn eight_bytes_of_two_characters_are_full_inline() {
    let s = ColdString::new("🦀💯");
    assert!(s.is_inline());
    assert_eq!(s.len(), 8);
    assert_eq!(
        s.to_word().to_bytes(),
        [240, 159, 166, 128, 240, 159, 146, 175]
    );
    assert_eq!(s.as_str(), "🦀💯");
}

#[test]
fn long_string_is_on_the_heap() {
    let text = "this_is_a_longer_string_that_will_allocate";
    assert_eq!(text.len(), 42);
    let s = ColdString::new(text);
    assert!(!s.is_inline());
    assert_eq!(s.len(), 42);
    assert_eq!(s.heap_size(), 1 + 42);
    assert_eq!(s.heap_addr() % 4, 0);
    assert_eq!(s.to_word().to_bytes()[0] & 0b1100_0000, 0b1000_0000);
    assert_eq!(s.to_word().tag(), 0b1000_0000);
    assert_eq!(s.as_str(), text);
    assert_eq!(s.as_bytes(), text.as_bytes());
}

#[test]
fn nine_bytes_are_on_the_heap() {
    let s = ColdString::new("123456789");
    assert!(!s.is_inline());
    assert_eq!(s.heap_size(), 10);
    assert_eq!(s.as_str(), "123456789");
}

#[test]
fn long_header_takes_two_bytes() {
    let text = "x".repeat(300);
    let s = ColdString::new(&text);
    assert!(!s.is_inline());
    assert_eq!(s.len(), 300);
    assert_eq!(s.heap_size(), 2 + 300);
    assert_eq!(s.as_str(), text);
}

#[test]
fn continuation_byte_never_leads_a_string() {
    for lead in 0b1000_0000u8..=0b1011_1111 {
        let bytes = [lead, b'a', b'b', b'c', b'd', b'e', b'f', b'g'];
        assert!(ColdString::from_utf8(&bytes).is_err());
    }
    for lead in 0b1111_1000u8..=0b1111_1111 {
        let bytes = [lead, b'a', b'b', b'c', b'd', b'e', b'f', b'g'];
        assert!(ColdString::from_utf8(&bytes).is_err());
    }
}

#[test]
fn from_utf8_accepts_valid_bytes() {
    let bytes = [240, 159, 166, 128, 240, 159, 146, 175];
    let s = ColdString::from_utf8(&bytes).expect("valid UTF-8");
    assert_eq!(s, "🦀💯");
    assert_eq!(s.as_bytes(), &bytes);
}

#[test]
fn from_utf8_rejects_invalid_bytes() {
    let bytes = [255, 255, 255];
    let result = ColdString::from_utf8(&bytes);
    assert!(result.is_err());
    let expected = std::str::from_utf8(&bytes).unwrap_err();
    assert_eq!(result.unwrap_err(), expected);
    let late = [b'a', b'b', 0xC3];
    let err = ColdString::from_utf8(&late).unwrap_err();
    assert_eq!(err.valid_up_to(), 2);
}

#[test]
fn from_utf8_unchecked_holds_the_bytes() {
    let sparkle_heart = [240, 159, 146, 150];
    let s = ColdString::from_utf8_unchecked(&sparkle_heart);
    assert_eq!("💖", s);
    let long = "a string that is long enough for the heap";
    assert_eq!(ColdString::from_utf8_unchecked(long.as_bytes()).as_bytes(), long.as_bytes());
}

#[test]
fn new_inline_const_matches_new() {
    for s in ["", "c", "cold", "1234567", "12345678", "🦀💯"] {
        let a = ColdString::new_inline_const(s);
        assert!(a.is_inline());
        assert_eq!(a, ColdString::new(s));
        assert_eq!(a.to_word().to_bytes(), ColdString::new(s).to_word().to_bytes());
        assert_eq!(a.as_str(), s);
    }
}

#[test]
fn inline_buf_holds_the_discriminant() {
    assert_eq!(ColdString::inline_buf(""), [0xF8, 0, 0, 0, 0, 0, 0, 0]);
    assert_eq!(ColdString::inline_buf("abc"), [0xFB, 0, 0, 0, 0, 0, 0, 0]);
    assert_eq!(ColdString::inline_buf("abcdefg"), [0xFF, 0, 0, 0, 0, 0, 0, 0]);
    assert_eq!(ColdString::inline_buf("abcdefgh"), [0; 8]);
    assert_eq!(ColdString::utf8_start(0), 1);
    assert_eq!(ColdString::utf8_start(7), 1);
    assert_eq!(ColdString::utf8_start(8), 0);
}

#[test]
fn tagging_an_address_round_trips() {
    for addr in [0u64, 4, 8, 0x1000, 0x7fff_dead_bee0, u64::MAX - 3] {
        let value = tag_addr(addr);
        assert_eq!(value & 0xC0, 0x80);
        assert_eq!(untag_addr(value), addr);
        let word = EncodedWord::from_addr(addr);
        assert!(!word.is_inline());
        assert_eq!(word.addr(), value);
        assert_eq!(word.heap_addr(), addr);
        assert_eq!(word.to_bytes(), value.to_le_bytes());
    }
    assert_eq!(tag_addr(0x1000), 0x4_0080);
    assert_eq!(tag_addr(0xF000_0000_0000_0004), 0x0000_0000_0000_01BC);
}

#[test]
fn heap_block_holds_header_then_bytes() {
    let text = "this_is_a_longer_string_that_will_allocate";
    let s = ColdString::new(text);
    let mut header = [0u8; 10];
    let n = VarInt::write(text.len() as u64, &mut header);
    assert_eq!(n, 1);
    assert_eq!(header[0], 42);
    assert_eq!(s.heap_size(), n + text.len());
    assert_eq!(s.decode_heap(), text.as_bytes());
}
