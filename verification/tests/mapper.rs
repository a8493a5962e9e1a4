use debcontrol_struct::DecodeError;
use debcontrol_struct::Field;
use debcontrol_struct::FieldDecl;
use debcontrol_struct::Paragraph;
use debcontrol_struct::Record;
use debcontrol_struct::decode;
use debcontrol_struct::encode;

fn field(name: &str, value: &str) -> Field {
    Field { name: name.to_string(), value: value.to_string() }
}

fn decl(identifier: &str, optional: bool) -> FieldDecl {
    FieldDecl { identifier: identifier.to_string(), optional }
}

fn derived_decls() -> Vec<FieldDecl> {
    vec![
        decl("first", false),
        decl("multiple_words", false),
        decl("optional", true),
    ]
}

#[test]
fn test_decode_fills_slots_in_declaration_order() {
    let decls = derived_decls();
    let input = Paragraph {
        fields: vec![field("Multiple-Words", "World"), field("First", "Hello")],
    };

    let rec = decode(&decls, &input).unwrap();

    assert_eq!(
        rec.values,
        vec![Some("Hello".to_string()), Some("World".to_string()), None]
    );
}

#[test]
fn test_decode_reports_first_missing_mandatory_field() {
    let decls = derived_decls();
    let input = Paragraph { fields: vec![field("First", "Hello")] };

    let err = decode(&decls, &input).unwrap_err();

    let DecodeError::MissingMandatoryField { identifier } = err;
    assert_eq!("multiple_words", identifier);
}

#[test]
fn test_decode_reports_earliest_declared_missing_field() {
    let decls = derived_decls();
    let input = Paragraph { fields: vec![field("Optional", "!")] };

    let err = decode(&decls, &input).unwrap_err();

    assert_eq!("first", err.identifier().as_str());
}

#[test]
fn test_decode_ignores_unknown_fields() {
    let decls = derived_decls();
    let plain = Paragraph {
        fields: vec![field("First", "Hello"), field("Multiple-Words", "World")],
    };
    let noisy = Paragraph {
        fields: vec![
            field("First", "Hello"),
            field("Unrelated", "ignored"),
            field("Multiple-Words", "World"),
        ],
    };

    assert_eq!(decode(&decls, &plain).unwrap(), decode(&decls, &noisy).unwrap());
}

#[test]
fn test_decode_duplicate_name_last_wins() {
    let decls = vec![decl("license", false)];
    let input = Paragraph {
        fields: vec![field("License", "Expat"), field("License", "GPL-3")],
    };

    let rec = decode(&decls, &input).unwrap();

    assert_eq!(rec.values, vec![Some("GPL-3".to_string())]);
}

#[test]
fn test_decode_empty_paragraph_all_optional_succeeds() {
    let decls = vec![decl("comment", true), decl("note", true)];
    let input = Paragraph { fields: vec![] };

    let rec = decode(&decls, &input).unwrap();

    assert_eq!(rec.values, vec![None, None]);
}

#[test]
fn test_decode_empty_paragraph_mandatory_fails() {
    let decls = vec![decl("license", false)];
    let input = Paragraph { fields: vec![] };

    assert!(decode(&decls, &input).is_err());
}

#[test]
fn test_encode_orders_mandatory_then_present_optional() {
    let decls = vec![
        decl("first", false),
        decl("optional", true),
        decl("multiple_words", false),
    ];
    let rec = Record {
        values: vec![
            Some("Hello".to_string()),
            Some("!".to_string()),
            Some("World".to_string()),
        ],
    };

    let p = encode(&decls, &rec);

    let expected = Paragraph {
        fields: vec![
            field("First", "Hello"),
            field("Multiple-Words", "World"),
            field("Optional", "!"),
        ],
    };
    assert_eq!(expected, p);
}

#[test]
fn test_encode_omits_absent_optional_field() {
    let decls = vec![decl("license", false), decl("comment", true)];
    let rec = Record { values: vec![Some("Expat".to_string()), None] };

    let p = encode(&decls, &rec);

    assert_eq!(Paragraph { fields: vec![field("License", "Expat")] }, p);
}

#[test]
fn test_round_trip_through_encode_and_decode() {
    let decls = derived_decls();
    let rec = Record {
        values: vec![
            Some("Hello".to_string()),
            Some("World".to_string()),
            Some("!".to_string()),
        ],
    };

    let back = decode(&decls, &encode(&decls, &rec)).unwrap();

    assert_eq!(rec, back);
}
