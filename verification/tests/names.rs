use file_transfer::decimal::decimal_digits;
use file_transfer::names::{append_bytes, attach_extensions, find_extension, strip_extensions};

fn parts(name: &str) -> (String, Vec<String>) {
    let (base, extensions) = strip_extensions(name.as_bytes());
    (
        String::from_utf8(base).unwrap(),
        extensions.into_iter().map(|e| String::from_utf8(e).unwrap()).collect(),
    )
}

#[test]
fn extension_starts_at_the_last_dot() {
    assert_eq!(find_extension(b"a.txt"), Some(1));
    assert_eq!(find_extension(b"archive.tar.gz"), Some(11));
    assert_eq!(find_extension(b"a."), Some(1));
    assert_eq!(find_extension(b"a..b"), Some(2));
}

#[test]
fn a_name_without_a_dot_has_no_extension() {
    assert_eq!(find_extension(b"something"), None);
    assert_eq!(find_extension(b""), None);
    assert_eq!(find_extension(b"a"), None);
}

#[test]
fn a_leading_dot_starts_no_extension() {
    assert_eq!(find_extension(b".profile"), None);
    assert_eq!(find_extension(b"."), None);
    assert_eq!(find_extension(b".profile.bak"), Some(8));
}

#[test]
fn extensions_come_off_outermost_first() {
    assert_eq!(parts("something.txt.test"), ("something".to_string(), vec!["test".to_string(), "txt".to_string()]));
    assert_eq!(parts("a.tar.gz"), ("a".to_string(), vec!["gz".to_string(), "tar".to_string()]));
    assert_eq!(parts("something"), ("something".to_string(), vec![]));
    assert_eq!(parts(".profile"), (".profile".to_string(), vec![]));
    assert_eq!(parts(".profile.bak"), (".profile".to_string(), vec!["bak".to_string()]));
    assert_eq!(parts("a."), ("a".to_string(), vec!["".to_string()]));
    assert_eq!(parts("a..b"), ("a".to_string(), vec!["b".to_string(), "".to_string()]));
    assert_eq!(parts(""), ("".to_string(), vec![]));
}

#[test]
fn extensions_go_back_in_their_first_order() {
    let extensions = vec![b"gz".to_vec(), b"tar".to_vec()];
    assert_eq!(attach_extensions(b"a (1)".to_vec(), &extensions), b"a (1).tar.gz".to_vec());
    assert_eq!(attach_extensions(b"a".to_vec(), &Vec::new()), b"a".to_vec());
    assert_eq!(attach_extensions(b"a".to_vec(), &vec![Vec::new()]), b"a.".to_vec());
}

#[test]
fn stripping_and_attaching_give_the_name_back() {
    for name in ["something.txt.test", "a..b", ".profile.bak", "a.", "plain", "", "x.y.z.w"] {
        let (base, extensions) = strip_extensions(name.as_bytes());
        assert_eq!(attach_extensions(base, &extensions), name.as_bytes().to_vec());
    }
}

#[test]
fn bytes_are_appended_in_order() {
    let mut out = b"ab".to_vec();
    append_bytes(&mut out, b"cd");
    append_bytes(&mut out, b"");
    assert_eq!(out, b"abcd".to_vec());
}

#[test]
fn numbers_are_written_without_leading_zeros() {
    assert_eq!(decimal_digits(0), b"0".to_vec());
    assert_eq!(decimal_digits(7), b"7".to_vec());
    assert_eq!(decimal_digits(10), b"10".to_vec());
    assert_eq!(decimal_digits(1203), b"1203".to_vec());
    assert_eq!(decimal_digits(u64::MAX), b"18446744073709551615".to_vec());
}
