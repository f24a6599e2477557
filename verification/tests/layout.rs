use cold_string::word::EncodedWord;
use cold_string::ColdString;
use std::mem;

#[test]
fn lib_test_layout() {
    assert_eq!(mem::size_of::<EncodedWord>(), mem::size_of::<usize>());
    assert_eq!(mem::align_of::<EncodedWord>(), 1);
    struct Foo {
        _s: EncodedWord,
        _b: u8,
    }

    assert_eq!(mem::size_of::<Foo>(), mem::size_of::<usize>() + 1);
    assert_eq!(mem::align_of::<Foo>(), 1);
}

#[test]
fn test_layout() {
    assert_eq!(mem::size_of::<EncodedWord>(), 8);
    assert_eq!(mem::align_of::<EncodedWord>(), 1);
    struct Foo {
        _s: EncodedWord,
        _b: u8,
    }

    assert_eq!(mem::size_of::<Foo>(), 9);
    assert_eq!(mem::align_of::<Foo>(), 1);
}

#[test]
fn layout_of_pair() {
    assert_eq!(mem::size_of::<(EncodedWord, u8)>(), mem::size_of::<usize>() + 1);
    assert_eq!(mem::align_of::<(EncodedWord, u8)>(), 1);
}

#[test]
fn test_unaligned_placement() {
    for s_content in ["torture", "tor", "tortures", "tort", "torture torture"] {
        let mut buffer = [0u8; 32];
        for offset in 0..8 {
            let s = ColdString::new(s_content);
            let word = s.to_word();
            buffer[offset..offset + 8].copy_from_slice(&word.to_bytes());
            let mut read = [0u8; 8];
            read.copy_from_slice(&buffer[offset..offset + 8]);
            let recovered = EncodedWord::from_bytes(read);
            assert_eq!(recovered.to_bytes(), word.to_bytes());
            assert_eq!(recovered.is_inline(), s.is_inline());
            if recovered.is_inline() {
                assert_eq!(recovered.decode_inline(), s_content.as_bytes());
            } else {
                assert_eq!(recovered.heap_addr(), s.heap_addr());
            }
            assert_eq!(s.as_str(), s_content);
        }
    }
}
