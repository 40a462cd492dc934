use guido::secret::Secret;

#[test]
fn it_edits_in_place_and_keeps_its_text_across_a_regrowth() {
    let mut secret = Secret::new();
    assert!(secret.is_empty());
    assert_eq!(secret.capacity(), 0, "an empty secret holds nothing");

    secret.replace_range(0..0, "held");
    secret.replace_range(2..2, "-lo-");
    assert_eq!(secret.expose(), "he-lo-ld");
    secret.replace_range(2..6, "");
    assert_eq!(secret.expose(), "held");
    let first = secret.capacity();

    let long = "x".repeat(first);
    secret.replace_range(4..4, &long);
    assert!(
        secret.capacity() > first,
        "it did not move to a larger buffer"
    );
    assert!(secret.expose().starts_with("held"));
    assert_eq!(secret.expose().len(), 4 + first);

    secret.clear();
    assert!(secret.is_empty());
    assert!(secret.wiped_beyond_text(), "clear left bytes behind");
}

#[test]
fn a_shrink_zeroes_what_it_leaves_past_the_end() {
    let mut secret = Secret::from_text(String::from("abcdefgh"));
    secret.replace_range(2..8, "");
    assert_eq!(secret.expose(), "ab");
    assert!(secret.wiped_beyond_text());
}

#[test]
fn a_duplicate_has_pages_of_its_own_and_outlives_the_original() {
    let original = Secret::from_text(String::from("hunter2"));
    let copy = original.duplicate();
    assert_eq!(copy.expose(), "hunter2");
    assert_ne!(
        copy.expose().as_ptr(),
        original.expose().as_ptr(),
        "the copy shares the original's buffer"
    );
    drop(original);
    assert_eq!(copy.expose(), "hunter2");
}

#[test]
fn a_regrowth_at_least_doubles_the_buffer() {
    let mut secret = Secret::from_text(String::from("ab"));
    assert_eq!(secret.capacity(), 2);
    secret.replace_range(2..2, "c");
    assert_eq!(secret.capacity(), 4);
    assert_eq!(secret.expose(), "abc");
    secret.replace_range(3..3, "d");
    assert_eq!(secret.capacity(), 4, "it fit, so it stayed");
    secret.replace_range(0..0, "0123456789");
    assert_eq!(secret.capacity(), 14, "more than double was needed");
    assert_eq!(secret.expose(), "0123456789abcd");
}

#[test]
fn edits_respect_multibyte_characters() {
    let mut secret = Secret::from_text(String::from("pässwörd"));
    assert_eq!(secret.expose().len(), 10);
    secret.replace_range(1..3, "a");
    assert_eq!(secret.expose(), "passwörd");
    secret.replace_range(5..7, "ö");
    assert_eq!(secret.expose(), "passwörd");
    secret.replace_range(5..7, "");
    assert_eq!(secret.expose(), "passwrd");
    assert!(secret.wiped_beyond_text());
}

#[test]
fn replacing_a_middle_range_shifts_the_tail_both_ways() {
    let mut secret = Secret::from_text(String::from("0123456789"));
    secret.replace_range(3..5, "abcd");
    assert_eq!(secret.expose(), "012abcd56789");
    secret.replace_range(3..7, "Z");
    assert_eq!(secret.expose(), "012Z56789");
    assert!(secret.wiped_beyond_text());
}

#[test]
fn debug_does_not_print_it() {
    let secret = Secret::from_text(String::from("hunter2"));
    assert_eq!(secret.debug_string(), "Secret(..)");
}
