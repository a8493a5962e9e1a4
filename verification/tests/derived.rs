use debcontrol_struct::DebControl;
use debcontrol_struct::DerivedStruct;
use debcontrol_struct::Field;
use debcontrol_struct::Paragraph;

fn field(name: &str, value: &str) -> Field {
    Field { name: name.to_string(), value: value.to_string() }
}

#[test]
fn test_parse_derived() {
    let input = Paragraph {
        fields: vec![field("First", "Hello"), field("Multiple-Words", "World")],
    };

    let derived = DerivedStruct::from_paragraph(&input).unwrap();

    assert_eq!("Hello", derived.first);
    assert_eq!("World", derived.multiple_words);
    assert_eq!(None, derived.optional);
}

#[test]
fn test_parse_derived_extended() {
    let input = Paragraph {
        fields: vec![
            field("First", "Hello"),
            field("Multiple-Words", "World"),
            field("Optional", "!"),
        ],
    };

    let derived = DerivedStruct::from_paragraph(&input).unwrap();

    assert_eq!("Hello", derived.first);
    assert_eq!("World", derived.multiple_words);
    assert_eq!(Some("!".into()), derived.optional);
}

#[test]
fn test_parse_derived_bogus() {
    let input = Paragraph { fields: vec![field("First", "Hello")] };

    assert!(DerivedStruct::from_paragraph(&input).is_err());
}

#[test]
fn lib_test_to_paragraph() {
    let expected = Paragraph {
        fields: vec![field("First", "Hello"), field("Multiple-Words", "World")],
    };

    let value = DerivedStruct {
        first: "Hello".into(),
        multiple_words: "World".into(),
        optional: None,
    };

    assert_eq!(expected, value.to_paragraph());
}

#[test]
fn lib_test_to_paragraph_extended() {
    let expected = Paragraph {
        fields: vec![
            field("First", "Hello"),
            field("Multiple-Words", "World"),
            field("Optional", "!"),
        ],
    };

    let value = DerivedStruct {
        first: "Hello".into(),
        multiple_words: "World".into(),
        optional: Some("!".into()),
    };

    assert_eq!(expected, value.to_paragraph());
}
