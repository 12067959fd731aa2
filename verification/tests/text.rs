use dsmr_exporter::text::lowercase;

#[test]
fn ascii_letters_are_lowercased() {
    assert_eq!(lowercase("kWh"), "kwh");
    assert_eq!(lowercase("V"), "v");
    assert_eq!(lowercase("ABCXYZ"), "abcxyz");
}

#[test]
fn ascii_characters_that_are_no_upper_case_letters_stay() {
    assert_eq!(lowercase("m3/h @[`{_09"), "m3/h @[`{_09");
    assert_eq!(lowercase(""), "");
}

#[test]
fn unicode_letters_are_lowercased() {
    assert_eq!(lowercase("\u{03A9}"), "\u{03C9}");
    assert_eq!(lowercase("\u{00C5}NGSTR\u{00D6}M"), "\u{00E5}ngstr\u{00F6}m");
}
