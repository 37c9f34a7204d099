use byte_string::ByteString;

#[test]
fn it_works() {
    let mut bs = ByteString::<20>::new();
    assert_eq!(bs.size(), 20);
    bs.append('A' as u8);
    assert_eq!(bs.len(), 1);
    let _ = bs.write_str("BCD");
    assert_eq!(bs.len(), 4);
    let st: &str = bs.str();
    assert_eq!(st, "ABCD");
    let slice = bs.slice();
    assert_eq!(slice[0], 65u8);
    assert_eq!(slice[1], 66u8);
    assert_eq!(slice[2], 67u8);
    assert_eq!(slice[3], 68u8);
    bs.del_last();
    assert_eq!(bs.len(), 3);
    let st: &str = bs.str();
    assert_eq!(st, "ABC");
    let _ = bs.write_str("   ");
    bs.trim_end();
    assert_eq!(bs.len(), 3);
    let _ = bs.write_str("12345678901234567890");
    assert_eq!(bs.len(), 20);
    bs.clear();
    assert_eq!(bs.len(), 0);
    assert_eq!(bs.is_empty(), true);
    bs.append('B' as u8);
    assert_eq!(bs.is_empty(), false);
    bs.clear();
    bs.append_str("BCD");
    assert_eq!(bs.len(), 3);
    bs.from_str("Hello");
    assert_eq!(bs.len(), 5);
    assert_eq!(bs.str(), "Hello");
}

#[test]
fn len_never_exceeds_size() {
    let mut bs = ByteString::<4>::new();
    assert_eq!(bs.size(), 4);
    for b in 0..100u8 {
        bs.append(b);
        assert!(bs.len() <= bs.size());
    }
    assert_eq!(bs.len(), 4);
}

#[test]
fn append_past_capacity_keeps_live_bytes() {
    let mut bs = ByteString::<3>::new();
    bs.append(1);
    bs.append(2);
    bs.append(3);
    bs.append(4);
    bs.append(5);
    assert_eq!(bs.len(), 3);
    assert_eq!(bs.slice(), &[1u8, 2, 3]);
}

#[test]
fn clear_leaves_empty() {
    let mut bs = ByteString::<8>::new();
    bs.append_str("stuff");
    bs.clear();
    assert_eq!(bs.len(), 0);
    assert!(bs.is_empty());
    bs.clear();
    assert_eq!(bs.len(), 0);
    assert!(bs.is_empty());
}

#[test]
fn from_str_keeps_fitting_prefix() {
    let mut bs = ByteString::<5>::new();
    bs.from_str("Hello");
    assert_eq!(bs.len(), 5);
    assert_eq!(bs.str(), "Hello");
    bs.from_str("Hello World");
    assert_eq!(bs.len(), 5);
    assert_eq!(bs.str(), "Hello");
    bs.from_str("Hi");
    assert_eq!(bs.len(), 2);
    assert_eq!(bs.str(), "Hi");
    bs.from_str("");
    assert_eq!(bs.len(), 0);
    assert_eq!(bs.str(), "");
}

#[test]
fn del_last_drains_then_stays_empty() {
    let mut bs = ByteString::<6>::new();
    bs.append_str("abc");
    let n = bs.len();
    for _ in 0..n {
        bs.del_last();
    }
    assert!(bs.is_empty());
    bs.del_last();
    assert!(bs.is_empty());
    assert_eq!(bs.len(), 0);
}

#[test]
fn del_last_removes_newest_byte() {
    let mut bs = ByteString::<4>::new();
    bs.append_str("xyz");
    bs.del_last();
    assert_eq!(bs.slice(), b"xy");
    assert!(!bs.has_byte(b'z'));
}

#[test]
fn trim_end_removes_only_trailing_spaces() {
    let mut bs = ByteString::<10>::new();
    bs.append_str("a b  ");
    bs.trim_end();
    assert_eq!(bs.slice(), b"a b");
    bs.trim_end();
    assert_eq!(bs.slice(), b"a b");
}

#[test]
fn trim_end_on_all_spaces_empties() {
    let mut bs = ByteString::<6>::new();
    bs.append_str("    ");
    bs.trim_end();
    assert!(bs.is_empty());
}

#[test]
fn trim_end_on_empty_is_noop() {
    let mut bs = ByteString::<6>::new();
    bs.trim_end();
    assert!(bs.is_empty());
    assert_eq!(bs.len(), 0);
}

#[test]
fn trim_end_keeps_other_whitespace() {
    let mut bs = ByteString::<6>::new();
    bs.append(b'a');
    bs.append(0x09);
    bs.append(0x0a);
    bs.trim_end();
    assert_eq!(bs.slice(), &[b'a', 0x09, 0x0a]);
}

#[test]
fn has_byte_matches_slice_membership() {
    let mut bs = ByteString::<8>::new();
    bs.append_str("hello");
    assert!(bs.has_byte(b'h'));
    assert!(bs.has_byte(b'l'));
    assert!(bs.has_byte(b'o'));
    assert!(!bs.has_byte(b'z'));
    assert!(!bs.has_byte(0));
    bs.clear();
    assert!(!bs.has_byte(b'h'));
}

#[test]
fn char_at_in_and_out_of_range() {
    let mut bs = ByteString::<5>::new();
    bs.append_str("AB");
    assert_eq!(bs.char_at(0), Some('A'));
    assert_eq!(bs.char_at(1), Some('B'));
    assert_eq!(bs.char_at(2), None);
    assert_eq!(bs.char_at(5), None);
    assert_eq!(bs.char_at(usize::MAX), None);
}

#[test]
fn zero_capacity_stays_empty() {
    let mut bs = ByteString::<0>::new();
    assert_eq!(bs.size(), 0);
    bs.append(65);
    assert_eq!(bs.len(), 0);
    bs.append_str("xyz");
    assert_eq!(bs.len(), 0);
    bs.from_str("abc");
    assert_eq!(bs.len(), 0);
    assert!(bs.is_empty());
    assert_eq!(bs.str(), "");
}

#[test]
fn write_str_reports_success_and_clamps() {
    let mut bs = ByteString::<2>::new();
    let r = bs.write_str("abcd");
    assert!(r.is_ok());
    assert_eq!(bs.len(), 2);
    assert_eq!(bs.str(), "ab");
    let r = bs.write_str("more");
    assert!(r.is_ok());
    assert_eq!(bs.len(), 2);
}

#[test]
fn try_str_checks_the_encoding() {
    let mut bs = ByteString::<4>::new();
    bs.append_str("ok");
    assert_eq!(bs.try_str(), Some("ok"));
    bs.append(0xff);
    assert_eq!(bs.try_str(), None);
    bs.del_last();
    assert_eq!(bs.try_str(), Some("ok"));
}

#[test]
fn append_str_preserves_byte_order() {
    let mut bs = ByteString::<8>::new();
    bs.append_str("ab");
    bs.append_str("cd");
    assert_eq!(bs.slice(), b"abcd");
    assert_eq!(bs.str(), "abcd");
}
