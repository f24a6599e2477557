use cold_string::ColdString;
use std::collections::hash_map::RandomState;
use std::hash::{BuildHasher, Hash, Hasher};

#[test]
fn test_default() {
    assert!(ColdString::default().is_empty());
    assert_eq!(ColdString::default().len(), 0);
    assert_eq!(ColdString::default(), "");
    assert_eq!(ColdString::default(), ColdString::new(""));
}

#[test]
fn it_works() {
    for s in ["test", "", "1234567", "longer test"] {
        let cs = ColdString::new(s);
        assert_eq!(cs.as_str(), s);
        assert_eq!(cs.len(), s.len());
        assert_eq!(cs.len() < 8, cs.is_inline());
        assert_eq!(cs.clone(), cs);
        let bh = RandomState::new();
        assert_eq!(bh.hash_one(&cs), bh.hash_one(&cs.clone()));
        assert_eq!(cs, s);
        assert_eq!(s, cs);
        assert_eq!(cs, *s);
        assert_eq!(*s, cs);
    }
}

#[test]
fn lib_it_works() {
    for s in [
        "1",
        "12",
        "123",
        "1234",
        "12345",
        "123456",
        "1234567",
        "12345678",
        "123456789",
        std::str::from_utf8(&[240, 159, 146, 150]).unwrap(),
        "✅",
        "❤️",
        "🦀💯",
        "🦀",
        "💯",
        "abcd",
        "test",
        "",
        "\0",
        "\0\0",
        "\0\0\0",
        "\0\0\0\0",
        "\0\0\0\0\0\0\0",
        "\0\0\0\0\0\0\0\0",
        "1234567",
        "12345678",
        "longer test",
        std::str::from_utf8(&[103, 39, 240, 145, 167, 156, 194, 165]).unwrap(),
        "AaAa0 ® ",
        std::str::from_utf8(&[240, 158, 186, 128, 240, 145, 143, 151]).unwrap(),
    ] {
        let cs = ColdString::new(s);
        assert_eq!(s.len() <= std::mem::size_of::<usize>(), cs.is_inline());
        assert_eq!(cs.len(), s.len());
        assert_eq!(cs.as_bytes(), s.as_bytes());
        assert_eq!(cs.as_str(), s);
        assert_eq!(cs.clone(), cs);
        let bh = RandomState::new();
        let mut hasher1 = bh.build_hasher();
        cs.hash(&mut hasher1);
        let mut hasher2 = bh.build_hasher();
        cs.clone().hash(&mut hasher2);
        assert_eq!(hasher1.finish(), hasher2.finish());
        assert_eq!(cs, s);
        assert_eq!(s, cs);
        assert_eq!(cs, *s);
        assert_eq!(*s, cs);
    }
}

#[test]
fn equality_follows_the_text() {
    let texts = ["", "a", "b", "ab", "1234567", "12345678", "12345679", "123456789", "1234567890",
        "a much longer string, on the heap", "a much longer string, on the heaq"];
    for left in texts {
        for right in texts {
            let cold1 = ColdString::new(left);
            let cold2 = ColdString::new(right);
            assert_eq!(cold1 == cold2, left == right);
            assert_eq!(cold1 == right, left == right);
            assert_eq!(right == cold1, left == right);
            assert_eq!(cold2 == left, left == right);
            assert_eq!(left == cold2, left == right);
            assert_eq!(cold1 == *right, left == right);
            assert_eq!(*right == cold1, left == right);
        }
    }
}

#[test]
fn clone_is_equal_and_owns_its_block() {
    for s in ["", "short", "12345678", "a string that is long enough for the heap"] {
        let cs = ColdString::new(s);
        let copy = cs.clone();
        assert_eq!(copy, cs);
        assert_eq!(copy.as_str(), cs.as_str());
        assert_eq!(copy.is_inline(), cs.is_inline());
        assert_eq!(copy.heap_size(), cs.heap_size());
        if cs.is_inline() {
            assert_eq!(copy.to_word().to_bytes(), cs.to_word().to_bytes());
        } else {
            assert_ne!(copy.heap_addr(), cs.heap_addr());
        }
        let bh = RandomState::new();
        assert_eq!(bh.hash_one(&cs), bh.hash_one(&copy));
        assert_eq!(bh.hash_one(&cs), bh.hash_one(s));
        drop(cs);
        assert_eq!(copy.as_str(), s);
    }
}

#[test]
fn conversions_hold_the_text() {
    let long = "conversions keep every byte of the text";
    for s in ["", "foo", "ƒoo", "12345678", long] {
        assert_eq!(ColdString::from(s).as_str(), s);
        assert_eq!(ColdString::from(String::from(s)).as_str(), s);
        assert_eq!(s.parse::<ColdString>().unwrap().as_str(), s);
        assert_eq!(ColdString::from_iter(s.chars().collect()).as_str(), s);
        let cs = ColdString::new(s);
        assert_eq!(cs.to_string(), s);
        assert_eq!(&*cs, s);
        let as_str: &str = cs.as_ref();
        assert_eq!(as_str, s);
        let as_bytes: &[u8] = cs.as_ref();
        assert_eq!(as_bytes, s.as_bytes());
        let borrowed: &str = std::borrow::Borrow::borrow(&cs);
        assert_eq!(borrowed, s);
        assert_eq!(cs.chars().count(), s.chars().count());
    }
    assert_eq!(ColdString::from("foo").len(), 3);
    assert_eq!(ColdString::from("ƒoo").len(), 4);
    assert_eq!(ColdString::from("hello").as_bytes(), &[104, 101, 108, 108, 111]);
}
