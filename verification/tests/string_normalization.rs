use artistpath_core::string_normalization::clean_str;

#[test]
fn test_clean_str_basic() {
    assert_eq!(clean_str("hello world"), "hello world");
    assert_eq!(clean_str("HELLO WORLD"), "hello world");
    assert_eq!(clean_str("  hello  world  "), "hello world");
}

#[test]
fn test_clean_str_unicode() {
    assert_eq!(clean_str("Björk"), "bjork");
    assert_eq!(clean_str("Beyoncé"), "beyonce");
    assert_eq!(clean_str("LØLØ"), "lolo");
    assert_eq!(clean_str("Röyksopp"), "royksopp");
}

#[test]
fn test_clean_str_special_characters() {
    assert_eq!(clean_str("AC/DC"), "ac/dc");
    assert_eq!(clean_str("Panic! At The Disco"), "panic! at the disco");
    assert_eq!(clean_str("blink-182"), "blink-182");
}

#[test]
fn test_clean_str_extra_spaces() {
    assert_eq!(clean_str("   Taylor   Swift   "), "taylor swift");
    assert_eq!(clean_str("The\t\tBeatles"), "the beatles");
    assert_eq!(clean_str("Pink\nFloyd"), "pink floyd");
}

#[test]
fn test_clean_str_empty() {
    assert_eq!(clean_str(""), "");
    assert_eq!(clean_str("   "), "");
    assert_eq!(clean_str("\t\n"), "");
}

#[test]
fn clean_str_is_idempotent_on_samples() {
    for name in [
        "Björk",
        "  Sigur   Rós ",
        "AC/DC",
        "北亰",
        "Æneid",
        "\tA\u{b}B\u{c}C ",
        "ß and  Ł",
        "",
    ] {
        let once = clean_str(name);
        let twice = clean_str(&once);
        assert_eq!(once, twice);
    }
}

#[test]
fn clean_str_transliterates_before_squeezing() {
    // U+00A0 is a space only once it has been brought into ASCII.
    assert_eq!(clean_str("a\u{a0}\u{a0}b"), "a b");
    assert_eq!(clean_str("Æneid"), "aeneid");
    assert_eq!(clean_str("北亰"), "bei jing");
    assert_eq!(clean_str("X\u{b}Y"), "x y");
    assert_eq!(clean_str("[Z]"), "[z]");
    assert_eq!(clean_str("@`{"), "@`{");
}
