use propbin::hash::{fnv1a, xxh64, Fnv1a, Xxh64};

#[test]
fn test_fnv1a_case_fold() {
    assert_eq!(fnv1a("abc"), fnv1a("ABC"));
    assert_eq!(fnv1a("abc"), fnv1a("aBc"));
}

#[test]
fn test_fnv1a_empty_is_seed() {
    assert_eq!(fnv1a(""), 0x811C9DC5);
}

#[test]
fn test_xxh64_case_fold() {
    assert_eq!(xxh64("abc"), xxh64("ABC"));
    assert_eq!(
        Xxh64::new("a_longer_name_that_crosses_the_32_byte_stripe_boundary").0,
        Xxh64::new("A_LONGER_NAME_THAT_CROSSES_THE_32_BYTE_STRIPE_BOUNDARY").0
    );
}

#[test]
fn test_fnv1a_known_value() {
    // h = (seed ^ 'a') * prime, one step at a time, lower-cased input.
    let mut h: u32 = 0x811c9dc5;
    for b in "path".bytes() {
        h = (h ^ (b as u32)).wrapping_mul(0x01000193);
    }
    assert_eq!(Fnv1a::new("PATH").0, h);
}
