//! The string buffers crossing the component boundary.
use xpcom::nsCString;
use xpcom::nsString;

#[test]
fn byte_string_round_trip() {
    let s = nsCString::from_slice(b"https://example.test/");
    assert_eq!(s.as_slice(), b"https://example.test/");
    let empty = nsCString::new_empty();
    assert_eq!(empty.as_slice(), b"");
}

#[test]
fn byte_string_out_parameter_fill() {
    let mut s = nsCString::new_empty();
    // A callee fills the abstract string through the borrowed slot.
    s.as_aptr_mut().assign(b"filled-in");
    assert_eq!(s.as_slice(), b"filled-in");
    assert_eq!(s.as_aptr().as_slice(), b"filled-in");
    assert_eq!(s.as_aptr().len(), 9);
}

#[test]
fn wide_string_round_trip() {
    let units: Vec<u16> = "wide".encode_utf16().collect();
    let s = nsString::from_slice(&units);
    assert_eq!(s.as_slice(), &units[..]);
    let empty = nsString::new_empty();
    assert_eq!(empty.as_slice(), &[] as &[u16]);
}

#[test]
fn wide_string_out_parameter_fill() {
    let mut s = nsString::new_empty();
    let units: Vec<u16> = vec![0x66, 0x6f, 0x6f];
    s.as_aptr_mut().assign(&units);
    assert_eq!(s.as_slice(), &units[..]);
    assert_eq!(s.as_aptr().len(), 3);
}
