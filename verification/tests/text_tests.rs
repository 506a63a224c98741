use downup::text::{push_decimal, str_equals};

#[test]
fn decimal_appends_digits() {
    let mut s = String::from("n=");
    push_decimal(&mut s, 0);
    assert_eq!(s, "n=0");
    let mut s = String::new();
    push_decimal(&mut s, 6000);
    assert_eq!(s, "6000");
    let mut s = String::new();
    push_decimal(&mut s, u64::MAX);
    assert_eq!(s, u64::MAX.to_string());
}

#[test]
fn string_equality() {
    assert!(str_equals("tcp", "tcp"));
    assert!(!str_equals("tcp", "udp"));
    assert!(!str_equals("tcp", "tcp "));
    assert!(str_equals("", ""));
    assert!(!str_equals("é", "e"));
}
