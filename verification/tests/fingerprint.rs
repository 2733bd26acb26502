use ssh_agent_filter::fingerprint::{base64_encode, canonicalize_fingerprint, md5_hex};

#[test]
fn base64_of_known_bytes() {
    assert_eq!(base64_encode(b""), "");
    assert_eq!(base64_encode(b"f"), "Zg==");
    assert_eq!(base64_encode(b"fo"), "Zm8=");
    assert_eq!(base64_encode(b"foo"), "Zm9v");
    assert_eq!(base64_encode(b"foobar"), "Zm9vYmFy");
    assert_eq!(base64_encode(&[0xfb, 0xef, 0xff]), "++//");
}

#[test]
fn base64_tells_keys_apart() {
    assert_ne!(base64_encode(&[1]), base64_encode(&[1, 0]));
    assert_ne!(base64_encode(&[1, 0]), base64_encode(&[1, 0, 0]));
    assert_ne!(base64_encode(&[1, 2, 3]), base64_encode(&[1, 2, 4]));
}

#[test]
fn md5_of_known_bytes() {
    assert_eq!(md5_hex(b""), "d41d8cd98f00b204e9800998ecf8427e");
    assert_eq!(md5_hex(b"abc"), "900150983cd24fb0d6963f7d28e17f72");
}

#[test]
fn fingerprints_are_compared_by_their_digits() {
    assert_eq!(canonicalize_fingerprint("AA:bb:0f"), "aabb0f");
    assert_eq!(canonicalize_fingerprint("  12-34 xyz"), "1234");
    assert_eq!(canonicalize_fingerprint(""), "");
    assert_eq!(canonicalize_fingerprint("\u{e9}\u{ff21}G"), "");
    // The digits of a leading "MD5" count too.
    assert_eq!(canonicalize_fingerprint("MD5:00"), "d500");
}

#[test]
fn canonical_form_is_kept() {
    let once = canonicalize_fingerprint("De:aD:be:EF");
    assert_eq!(once, "deadbeef");
    assert_eq!(canonicalize_fingerprint(&once), once);
    let md5 = md5_hex(b"abc");
    assert_eq!(canonicalize_fingerprint(&md5), md5);
}

#[test]
fn printed_fingerprint_is_the_computed_one() {
    let printed = "90:01:50:98:3C:D2:4F:B0:D6:96:3F:7D:28:E1:7F:72";
    assert_eq!(canonicalize_fingerprint(printed), md5_hex(b"abc"));
}

#[test]
fn parts_are_brought_into_form_each_for_itself() {
    let (a, b) = ("A:B", ":cD");
    let whole = format!("{}{}", a, b);
    let parts = format!("{}{}", canonicalize_fingerprint(a), canonicalize_fingerprint(b));
    assert_eq!(canonicalize_fingerprint(&whole), parts);
}
