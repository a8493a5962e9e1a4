use debcontrol_struct::ident_to_parse;

#[test]
fn test_ident_to_parse() {
    assert_eq!("Field", ident_to_parse("field"));
    assert_eq!("Composed-Field", ident_to_parse("composed_field"));
    assert_eq!("Already-Upper", ident_to_parse("Already_Upper"));
}

#[test]
fn test_ident_to_parse_empty() {
    assert_eq!("", ident_to_parse(""));
}

#[test]
fn test_ident_to_parse_separators() {
    assert_eq!("-", ident_to_parse("_"));
    assert_eq!("A--B", ident_to_parse("a__b"));
    assert_eq!("Multi-Word-Name", ident_to_parse("multi_word_name"));
}

#[test]
fn test_ident_to_parse_digits_unchanged() {
    assert_eq!("Field2", ident_to_parse("field2"));
    assert_eq!("X2-Y3", ident_to_parse("x2_y3"));
}

#[test]
fn test_ident_to_parse_forces_capitalization_only_at_segment_start() {
    // the second character of a segment keeps its case
    assert_eq!("FIeld", ident_to_parse("fIeld"));
    // capitalizing an already-capitalized segment start changes nothing
    assert_eq!(ident_to_parse("upper_lower"), ident_to_parse("Upper_Lower"));
}
