use mirrorman::digest::{content_digest, same_digest};

#[test]
fn digest_of_empty_contents() {
    assert_eq!(content_digest(b""), "WERC8GMRZGE196QVYK49JVXS4GKTWGF4CJDS6K54JPCHPY2JQ1AG");
}

#[test]
fn digest_of_short_contents() {
    let d = content_digest(b"hi");
    assert_eq!(d, "HX1M6HK4HXNSDQW9VPMG3H8QDC8ADP1SC7EKR6P8HDCV5Q1JFAJ0");
    assert_eq!(d.len(), 52);
    assert_ne!(content_digest(b"hi"), content_digest(b"yo"));
}

#[test]
fn digests_compare_without_case() {
    assert!(same_digest("HX1M6HK4", "hx1m6hk4"));
    assert!(!same_digest("HX1M6HK4", "HX1M6HK5"));
    assert!(!same_digest("HX1M", "HX1M6"));
    assert!(same_digest("", ""));
}

#[test]
fn digest_uses_the_crockford_alphabet() {
    let alphabet = "0123456789ABCDEFGHJKMNPQRSTVWXYZ";
    for contents in [&b""[..], b"hi", b"yo", b"bye"] {
        assert!(content_digest(contents).chars().all(|c| alphabet.contains(c)));
    }
}
