use sudo_prompt::bytes::split;
use sudo_prompt::text::{decimal_string, join2, join3, signed_string};

#[test]
fn decimal_rendering() {
    assert_eq!(decimal_string(0), "0");
    assert_eq!(decimal_string(1006), "1006");
    assert_eq!(decimal_string(u64::MAX), u64::MAX.to_string());
    assert_eq!(signed_string(-15), "-15");
    assert_eq!(signed_string(i32::MIN), i32::MIN.to_string());
    assert_eq!(signed_string(7), "7");
}

#[test]
fn joining() {
    assert_eq!(join2("a", "b"), "ab");
    assert_eq!(join3("a", "-", "b"), "a-b");
}

#[test]
fn splitting_keeps_empty_pieces() {
    assert_eq!(split(b"a::b", b':'), vec![b"a".to_vec(), Vec::new(), b"b".to_vec()]);
    assert_eq!(split(b"", b':'), vec![Vec::<u8>::new()]);
    assert_eq!(split(b":", b':'), vec![Vec::<u8>::new(), Vec::new()]);
}
