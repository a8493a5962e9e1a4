use debcontrol_struct::DebControl;
use debcontrol_struct::Field;
use debcontrol_struct::Paragraph;
use debcontrol_struct::StandaloneLicense;

fn field(name: &str, value: &str) -> Field {
    Field { name: name.to_string(), value: value.to_string() }
}

#[test]
fn test_parse_standalone_license() {
    let input = Paragraph { fields: vec![field("License", "Expat")] };

    let license = StandaloneLicense::from_paragraph(&input).unwrap();

    assert_eq!("Expat", license.license);
    assert_eq!(None, license.comment);
}

#[test]
fn test_parse_standalone_license_extended() {
    let input = Paragraph {
        fields: vec![
            field("License", "Expat"),
            field("Comment", "Curious license to use..."),
        ],
    };

    let license = StandaloneLicense::from_paragraph(&input).unwrap();

    assert_eq!("Expat", license.license);
    assert_eq!("Curious license to use...", license.comment.unwrap());
}

#[test]
fn test_parse_standalone_license_bogus() {
    let input = Paragraph { fields: vec![field("Lic", "Expat")] };

    assert!(StandaloneLicense::from_paragraph(&input).is_err());
}

#[test]
fn test_to_paragraph() {
    let expected = Paragraph { fields: vec![field("License", "Expat")] };

    let value = StandaloneLicense { license: "Expat".into(), comment: None };

    assert_eq!(expected, value.to_paragraph());
}

#[test]
fn test_to_paragraph_extended() {
    let expected = Paragraph {
        fields: vec![
            field("License", "Expat"),
            field("Comment", "Curious license to use..."),
        ],
    };

    let value = StandaloneLicense {
        license: "Expat".into(),
        comment: Some("Curious license to use...".into()),
    };

    assert_eq!(expected, value.to_paragraph());
}
