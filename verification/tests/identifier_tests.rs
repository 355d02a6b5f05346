use course_engine::ident::{
    normalize, parse_key, convert_course_code_to_identifier, Identifier, IdentifierError,
};

fn ident(department: &str, number: &str, suffix: &str, section: &str) -> Identifier {
    Identifier {
        department: department.to_string(),
        number: number.to_string(),
        school_suffix: suffix.to_string(),
        section: section.to_string(),
    }
}

fn same_ident(a: &Identifier, b: &Identifier) -> bool {
    a.department == b.department && a.number == b.number && a.school_suffix == b.school_suffix
        && a.section == b.section
}

#[test]
fn normalize_spaced_code() {
    let id = normalize("ASAM126 HM-01").unwrap();
    assert!(same_ident(&id, &ident("ASAM", "126", "HM", "01")));
}

#[test]
fn normalize_sectionless_code() {
    let id = normalize("CSCI051PO").unwrap();
    assert!(same_ident(&id, &ident("CSCI", "051", "PO", "")));
}

#[test]
fn normalize_number_with_letter_suffix() {
    let id = normalize("MATH055 HM-02").unwrap();
    assert!(same_ident(&id, &ident("MATH", "055", "HM", "02")));
}

#[test]
fn normalize_rejects_code_without_digit() {
    assert!(matches!(normalize("ABCDEF"), Err(IdentifierError::MalformedIdentifier)));
}

#[test]
fn normalize_rejects_too_short_code() {
    assert!(matches!(normalize("1"), Err(IdentifierError::MalformedIdentifier)));
}

#[test]
fn key_renders_four_parts() {
    let id = ident("ASAM", "126", "HM", "01");
    assert_eq!(id.key(), "ASAM-126-HM-01");
}

#[test]
fn key_renders_three_parts_without_section() {
    let id = ident("CSCI", "051", "PO", "");
    assert_eq!(id.key(), "CSCI-051-PO");
}

#[test]
fn identifier_round_trip() {
    // normalize, render the canonical key, parse it back: the same identifier
    let id = normalize("ASAM126 HM-01").unwrap();
    let key = id.key();
    let back = parse_key(&key).unwrap();
    assert!(same_ident(&id, &back));
}

#[test]
fn identifier_round_trip_sectionless() {
    let id = normalize("CSCI051PO").unwrap();
    let back = parse_key(&id.key()).unwrap();
    assert!(same_ident(&id, &back));
}

#[test]
fn parse_key_rejects_other_shapes() {
    assert!(parse_key("ASAM").is_none());
    assert!(parse_key("A-B-C-D-E").is_none());
}

#[test]
fn convert_code_to_identifier_key() {
    assert_eq!(convert_course_code_to_identifier("ASAM126 HM-01").unwrap(), "ASAM-126-HM-01");
    assert!(convert_course_code_to_identifier("ABCDEF").is_none());
}
