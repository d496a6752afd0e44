use xyz_parser::{parse_xyz_str, ParseError};

// ==================== Structured Error Fields ====================

#[test]
fn test_mismatch_reports_expected_and_actual_when_short() {
    let result = parse_xyz_str("3\ncomment\nO 0.0 0.0 0.0\nH 1.0 0.0 0.0\n");
    let err = result.unwrap_err();
    assert!(matches!(err, ParseError::AtomCountMismatch { expected: 3, actual: 2 }));
}

#[test]
fn test_mismatch_reports_expected_and_actual_when_long() {
    let result = parse_xyz_str("1\ncomment\nO 0.0 0.0 0.0\nH 1.0 0.0 0.0\n");
    let err = result.unwrap_err();
    assert!(matches!(err, ParseError::AtomCountMismatch { expected: 1, actual: 2 }));
}

#[test]
fn test_mismatch_with_zero_declared_atoms() {
    let result = parse_xyz_str("0\ncomment\nO 0.0 0.0 0.0\n");
    let err = result.unwrap_err();
    assert!(matches!(err, ParseError::AtomCountMismatch { expected: 0, actual: 1 }));
}

#[test]
fn test_invalid_coordinate_carries_line_number() {
    let result = parse_xyz_str("1\ncomment\nO NaN 0.0 0.0\n");
    let err = result.unwrap_err();
    assert!(matches!(err, ParseError::InvalidCoordinate(3, _)));
}

#[test]
fn test_invalid_atom_line_carries_line_number() {
    let result = parse_xyz_str("2\ncomment\nO 0.0 0.0 0.0\nH 1.0\n");
    let err = result.unwrap_err();
    assert!(matches!(err, ParseError::InvalidAtomLine(4, _)));
}

#[test]
fn test_mismatch_message_renders_both_counts() {
    let err = parse_xyz_str("3\ncomment\nO 0.0 0.0 0.0\nH 1.0 0.0 0.0\n").unwrap_err();
    let msg = err.message();
    assert!(msg.contains("expected 3 atoms, found 2"), "Error was: {}", msg);
}

#[test]
fn test_empty_file_message() {
    let err = parse_xyz_str("").unwrap_err();
    assert_eq!(err.message(), "empty file");
}

// ==================== Comment Handling ====================

#[test]
fn test_water_molecule_full_structure() {
    let result = parse_xyz_str("2\nWater molecule\nO 0.0 0.0 0.0\nH 0.96 0.0 0.0\n").unwrap();
    assert_eq!(result.comment, "Water molecule");
    assert_eq!(result.atoms.len(), 2);
    assert_eq!(result.atoms[0].element, "O");
    assert_eq!(f64::from_bits(result.atoms[0].x.bits), 0.0);
    assert_eq!(f64::from_bits(result.atoms[0].y.bits), 0.0);
    assert_eq!(f64::from_bits(result.atoms[0].z.bits), 0.0);
    assert_eq!(result.atoms[1].element, "H");
    assert_eq!(f64::from_bits(result.atoms[1].x.bits), 0.96);
    assert_eq!(f64::from_bits(result.atoms[1].y.bits), 0.0);
    assert_eq!(f64::from_bits(result.atoms[1].z.bits), 0.0);
}

#[test]
fn test_comment_preserved_verbatim() {
    let result = parse_xyz_str("0\n  spaced comment \n").unwrap();
    assert_eq!(result.comment, "  spaced comment ");
}

// ==================== Coordinate Values ====================

#[test]
fn test_exact_coordinate_values() {
    let result = parse_xyz_str("1\ncomment\nC 0.25 -2.0 1.0e2\n").unwrap();
    assert_eq!(f64::from_bits(result.atoms[0].x.bits), 0.25);
    assert_eq!(f64::from_bits(result.atoms[0].y.bits), -2.0);
    assert_eq!(f64::from_bits(result.atoms[0].z.bits), 100.0);
}

#[test]
fn test_whitespace_variants_parse_identically() {
    let canonical = parse_xyz_str("1\ncomment\nO 1.5 2.5 3.5\n").unwrap();
    let spaced = parse_xyz_str("1\ncomment\n   O\t1.5   2.5\t\t3.5   \n").unwrap();
    assert_eq!(canonical.atoms, spaced.atoms);
}

#[test]
fn test_nan_and_infinity_spellings_all_rejected() {
    for token in ["nan", "NAN", "nAn", "NaN", "inf", "INF", "Inf", "-inf", "-INF", "+inf", "+INF"]
    {
        let content = format!("1\ncomment\nO {} 0.0 0.0\n", token);
        let result = parse_xyz_str(&content);
        assert!(
            matches!(result, Err(ParseError::InvalidCoordinate(3, _))),
            "token {} was not rejected",
            token
        );
    }
}

#[test]
fn test_numeric_overflow_to_infinity_rejected() {
    let result = parse_xyz_str("1\ncomment\nO 1e400 0.0 0.0\n");
    assert!(matches!(result, Err(ParseError::InvalidCoordinate(3, _))));
}

#[test]
fn test_infinity_spelled_out_rejected() {
    let result = parse_xyz_str("1\ncomment\nO Infinity 0.0 0.0\n");
    assert!(matches!(result, Err(ParseError::InvalidCoordinate(3, _))));
}

// ==================== Element Heuristic Boundaries ====================

#[test]
fn test_element_starting_with_plus_rejected() {
    let result = parse_xyz_str("1\ncomment\n+H 0.0 0.0 0.0\n");
    assert!(matches!(result, Err(ParseError::InvalidAtomLine(3, _))));
}

#[test]
fn test_element_starting_with_dot_rejected() {
    let result = parse_xyz_str("1\ncomment\n.5 0.0 0.0 0.0\n");
    assert!(matches!(result, Err(ParseError::InvalidAtomLine(3, _))));
}

#[test]
fn test_element_starting_with_digit_rejected() {
    let result = parse_xyz_str("1\ncomment\n2H 0.0 0.0 0.0\n");
    assert!(matches!(result, Err(ParseError::InvalidAtomLine(3, _))));
}

// ==================== Header Boundaries ====================

#[test]
fn test_count_with_plus_sign_accepted() {
    let result = parse_xyz_str("+1\ncomment\nO 0.0 0.0 0.0\n").unwrap();
    assert_eq!(result.atoms.len(), 1);
}

#[test]
fn test_negative_zero_count_accepted() {
    let result = parse_xyz_str("-0\nempty\n").unwrap();
    assert_eq!(result.atoms.len(), 0);
}

#[test]
fn test_count_surrounded_by_whitespace_accepted() {
    let result = parse_xyz_str("  1 \ncomment\nO 0.0 0.0 0.0\n").unwrap();
    assert_eq!(result.atoms.len(), 1);
}

#[test]
fn test_count_too_large_for_64_bits_rejected() {
    let result = parse_xyz_str("99999999999999999999\ncomment\n");
    assert!(matches!(result, Err(ParseError::InvalidAtomCount(_))));
}

#[test]
fn test_count_with_inner_space_rejected() {
    let result = parse_xyz_str("1 2\ncomment\nO 0.0 0.0 0.0\n");
    assert!(matches!(result, Err(ParseError::InvalidAtomCount(_))));
}

// ==================== Line Endings and Trailing Content ====================

#[test]
fn test_crlf_line_endings_accepted() {
    let result = parse_xyz_str("1\r\ncomment\r\nO 0.0 0.0 0.0\r\n").unwrap();
    assert_eq!(result.atoms.len(), 1);
    assert_eq!(result.comment, "comment");
}

#[test]
fn test_trailing_blank_lines_tolerated() {
    let result = parse_xyz_str("1\ncomment\nO 0.0 0.0 0.0\n\n   \n").unwrap();
    assert_eq!(result.atoms.len(), 1);
}

#[test]
fn test_missing_file_content_precedence() {
    // The emptiness check precedes everything: a blank first line with
    // nothing after it is an empty file, not a bad atom count.
    let result = parse_xyz_str("   \n  \n");
    assert!(matches!(result, Err(ParseError::EmptyFile)));
}

#[test]
fn test_blank_header_with_later_content_is_empty_file() {
    let result = parse_xyz_str("\ncomment\nO 0.0 0.0 0.0\n");
    assert!(matches!(result, Err(ParseError::EmptyFile)));
}
