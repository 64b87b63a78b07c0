use sudo_prompt::journal::{datagram, MAX_DATAGRAM};

#[test]
fn the_native_form_of_one_field() {
    let d = datagram(&vec![("MESSAGE".to_string(), "a\nb".to_string())]).unwrap();
    let mut want = b"MESSAGE\n".to_vec();
    want.extend_from_slice(&3u64.to_le_bytes());
    want.extend_from_slice(b"a\nb\n");
    assert_eq!(d, want);
}

#[test]
fn fields_follow_one_another() {
    let d = datagram(&vec![("A".to_string(), "1".to_string()), ("B".to_string(), "".to_string())]).unwrap();
    let mut want = b"A\n".to_vec();
    want.extend_from_slice(&1u64.to_le_bytes());
    want.extend_from_slice(b"1\nB\n");
    want.extend_from_slice(&0u64.to_le_bytes());
    want.extend_from_slice(b"\n");
    assert_eq!(d, want);
    assert_eq!(datagram(&Vec::new()), Some(Vec::new()));
}

#[test]
fn an_oversized_record_is_dropped_not_mangled() {
    assert_eq!(MAX_DATAGRAM, 96 * 1024);
    let just = "x".repeat(MAX_DATAGRAM - 11);
    assert_eq!(datagram(&vec![("A".to_string(), just)]).unwrap().len(), MAX_DATAGRAM);
    let over = "x".repeat(MAX_DATAGRAM - 10);
    assert_eq!(datagram(&vec![("A".to_string(), over)]), None);
}

#[test]
fn lengths_are_bytes_not_characters() {
    let d = datagram(&vec![("V".to_string(), "é".to_string())]).unwrap();
    assert_eq!(&d[2..10], &2u64.to_le_bytes());
    assert_eq!(&d[10..12], "é".as_bytes());
}
