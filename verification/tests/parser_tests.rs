use xyz_parser::parse_xyz_str;

/// Approximate coordinate equality, as a reader of floating point expects.
fn approx_eq(a: f64, b: f64) -> bool {
    (a - b).abs() < 1e-10
}

fn coord(m: &xyz_parser::Molecule, atom: usize, axis: usize) -> f64 {
    let a = &m.atoms[atom];
    let c = match axis {
        0 => a.x,
        1 => a.y,
        _ => a.z,
    };
    f64::from_bits(c.bits)
}

// ==================== Valid File Parsing ====================

#[test]
fn test_parse_valid_xyz_file() {
    let content = "2\nWater molecule\nO 0.0 0.0 0.0\nH 0.96 0.0 0.0\n";
    let result = parse_xyz_str(content).unwrap();

    assert_eq!(result.atoms.len(), 2);
    assert_eq!(result.atoms[0].element, "O");
    assert!(approx_eq(coord(&result, 0, 0), 0.0));
    assert!(approx_eq(coord(&result, 0, 1), 0.0));
    assert!(approx_eq(coord(&result, 0, 2), 0.0));
    assert_eq!(result.atoms[1].element, "H");
    assert!(approx_eq(coord(&result, 1, 0), 0.96));
    assert!(approx_eq(coord(&result, 1, 1), 0.0));
    assert!(approx_eq(coord(&result, 1, 2), 0.0));
}

#[test]
fn test_parse_file_with_empty_comment_line() {
    let content = "1\n\nC 1.0 2.0 3.0\n";
    let result = parse_xyz_str(content).unwrap();

    assert_eq!(result.atoms.len(), 1);
}

#[test]
fn test_parse_file_with_negative_coordinates() {
    let content = "1\ncomment\nFe -1.5 -2.5 -3.5\n";
    let result = parse_xyz_str(content).unwrap();

    assert_eq!(result.atoms[0].element, "Fe");
    assert!(approx_eq(coord(&result, 0, 0), -1.5));
    assert!(approx_eq(coord(&result, 0, 1), -2.5));
    assert!(approx_eq(coord(&result, 0, 2), -3.5));
}

#[test]
fn test_parse_file_with_scientific_notation_coordinates() {
    let content = "1\ncomment\nN 1.0e-10 2.5E+3 -3.14e2\n";
    let result = parse_xyz_str(content).unwrap();

    assert_eq!(result.atoms[0].element, "N");
    assert!(approx_eq(coord(&result, 0, 0), 1.0e-10));
    assert!(approx_eq(coord(&result, 0, 1), 2500.0));
    assert!(approx_eq(coord(&result, 0, 2), -314.0));
}

#[test]
fn test_ignore_extra_fields_on_atom_lines() {
    let content = "1\ncomment\nC 0.0 0.0 0.0 extra data ignored\n";
    let result = parse_xyz_str(content).unwrap();

    assert_eq!(result.atoms.len(), 1);
    assert_eq!(result.atoms[0].element, "C");
    assert!(approx_eq(coord(&result, 0, 0), 0.0));
    assert!(approx_eq(coord(&result, 0, 1), 0.0));
    assert!(approx_eq(coord(&result, 0, 2), 0.0));
}

// ==================== Whitespace Handling ====================

#[test]
fn test_parse_file_with_tab_separated_fields() {
    let content = "1\ncomment\nO\t0.0\t0.0\t0.0\n";
    let result = parse_xyz_str(content).unwrap();

    assert_eq!(result.atoms.len(), 1);
}

#[test]
fn test_parse_file_with_multiple_spaces_between_fields() {
    let content = "1\ncomment\nO    0.0    0.0    0.0\n";
    let result = parse_xyz_str(content).unwrap();

    assert_eq!(result.atoms.len(), 1);
}

#[test]
fn test_parse_file_with_leading_whitespace_on_atom_lines() {
    let content = "1\ncomment\n  O 0.0 0.0 0.0\n";
    let result = parse_xyz_str(content).unwrap();

    assert_eq!(result.atoms.len(), 1);
}

#[test]
fn test_parse_file_with_trailing_whitespace_on_atom_lines() {
    let content = "1\ncomment\nO 0.0 0.0 0.0   \n";
    let result = parse_xyz_str(content).unwrap();

    assert_eq!(result.atoms.len(), 1);
}

// ==================== Element Symbol Handling ====================

#[test]
fn test_accept_alphanumeric_element_symbols() {
    let content = "2\ncomment\nX1 0.0 0.0 0.0\ndummy2 1.0 1.0 1.0\n";
    let result = parse_xyz_str(content).unwrap();

    assert_eq!(result.atoms[0].element, "X1");
    assert_eq!(result.atoms[1].element, "dummy2");
}

// ==================== Atom Count Validation ====================

#[test]
fn test_reject_file_when_atom_count_exceeds_actual_atoms() {
    let content = "3\ncomment\nO 0.0 0.0 0.0\nH 1.0 0.0 0.0\n";
    let result = parse_xyz_str(content);

    assert!(result.is_err());
    let err = result.unwrap_err().message();
    assert!(err.contains("atom count mismatch"), "Error was: {}", err);
}

#[test]
fn test_reject_file_when_atom_count_is_less_than_actual_atoms() {
    let content = "1\ncomment\nO 0.0 0.0 0.0\nH 1.0 0.0 0.0\n";
    let result = parse_xyz_str(content);

    assert!(result.is_err());
    let err = result.unwrap_err().message();
    assert!(err.contains("atom count mismatch"), "Error was: {}", err);
}

#[test]
fn test_reject_file_with_non_integer_atom_count() {
    let content = "2.5\ncomment\nO 0.0 0.0 0.0\n";
    let result = parse_xyz_str(content);

    assert!(result.is_err());
    let err = result.unwrap_err().message();
    assert!(err.contains("invalid atom count"), "Error was: {}", err);
}

#[test]
fn test_reject_file_with_negative_atom_count() {
    let content = "-1\ncomment\n";
    let result = parse_xyz_str(content);

    assert!(result.is_err());
    let err = result.unwrap_err().message();
    assert!(err.contains("invalid atom count"), "Error was: {}", err);
}

#[test]
fn test_accept_file_with_zero_atoms() {
    let content = "0\nempty molecule\n";
    let result = parse_xyz_str(content).unwrap();

    assert_eq!(result.atoms.len(), 0);
}

// ==================== Invalid Atom Line Handling ====================

#[test]
fn test_reject_atom_line_with_missing_coordinates() {
    let content = "2\ncomment\nO 0.0 0.0 0.0\nH 1.0\n";
    let result = parse_xyz_str(content);

    assert!(result.is_err());
    let err = result.unwrap_err().message();
    assert!(err.contains("invalid atom line"), "Error was: {}", err);
}

#[test]
fn test_reject_atom_line_with_missing_element_symbol() {
    let content = "1\ncomment\n0.0 0.0 0.0\n";
    let result = parse_xyz_str(content);

    assert!(result.is_err());
    let err = result.unwrap_err().message();
    assert!(err.contains("invalid atom line"), "Error was: {}", err);
}

#[test]
fn test_reject_atom_line_with_non_numeric_coordinates() {
    let content = "1\ncomment\nO abc 0.0 0.0\n";
    let result = parse_xyz_str(content);

    assert!(result.is_err());
    let err = result.unwrap_err().message();
    assert!(err.contains("invalid coordinate"), "Error was: {}", err);
}

// ==================== Special Float Value Rejection ====================

#[test]
fn test_reject_nan_coordinate() {
    let content = "1\ncomment\nO NaN 0.0 0.0\n";
    let result = parse_xyz_str(content);

    assert!(result.is_err());
    let err = result.unwrap_err().message();
    assert!(err.contains("invalid coordinate"), "Error was: {}", err);
}

#[test]
fn test_reject_positive_infinity_coordinate() {
    let content = "1\ncomment\nO Inf 0.0 0.0\n";
    let result = parse_xyz_str(content);

    assert!(result.is_err());
    let err = result.unwrap_err().message();
    assert!(err.contains("invalid coordinate"), "Error was: {}", err);
}

#[test]
fn test_reject_negative_infinity_coordinate() {
    let content = "1\ncomment\nO 0.0 -Inf 0.0\n";
    let result = parse_xyz_str(content);

    assert!(result.is_err());
    let err = result.unwrap_err().message();
    assert!(err.contains("invalid coordinate"), "Error was: {}", err);
}

// ==================== Empty and Malformed File Handling ====================

#[test]
fn test_reject_empty_file() {
    let content = "";
    let result = parse_xyz_str(content);

    assert!(result.is_err());
    let err = result.unwrap_err().message();
    assert!(err.contains("empty file"), "Error was: {}", err);
}

#[test]
fn test_reject_file_with_only_whitespace() {
    let content = "\n\n";
    let result = parse_xyz_str(content);

    assert!(result.is_err());
    let err = result.unwrap_err().message();
    assert!(err.contains("empty file"), "Error was: {}", err);
}

#[test]
fn test_reject_file_with_only_atom_count_line() {
    let content = "1\n";
    let result = parse_xyz_str(content);

    assert!(result.is_err());
    let err = result.unwrap_err().message();
    assert!(err.contains("missing comment line"), "Error was: {}", err);
}

#[test]
fn test_reject_file_with_atom_count_and_comment_but_missing_atoms() {
    let content = "1\ncomment\n";
    let result = parse_xyz_str(content);

    assert!(result.is_err());
    let err = result.unwrap_err().message();
    assert!(err.contains("atom count mismatch"), "Error was: {}", err);
}

#[test]
fn test_reject_blank_atom_line() {
    let content = "2\ncomment\nO 0.0 0.0 0.0\n\n";
    let result = parse_xyz_str(content);

    assert!(result.is_err());
    let err = result.unwrap_err().message();
    assert!(err.contains("invalid atom line"), "Error was: {}", err);
}
