use autoindex::utils::parse_file_size;

#[test]
fn test_parse_file_size_valid() {
    // Test cases with valid inputs
    assert_eq!(parse_file_size("1"), Some(1));
    assert_eq!(parse_file_size("1B"), Some(1));
    assert_eq!(parse_file_size("10K"), Some(10 * 1024));
    assert_eq!(
        parse_file_size("2.5M"),
        Some((2.5 * 1024.0 * 1024.0) as usize)
    );
    assert_eq!(parse_file_size("1G"), Some(1024 * 1024 * 1024));
    assert_eq!(
        parse_file_size("0.5T"),
        Some((0.5 * 1024.0 * 1024.0 * 1024.0 * 1024.0) as usize)
    );
    assert_eq!(parse_file_size(" 123  "), Some(123)); // Test trimming
    assert_eq!(parse_file_size("1k"), Some(1024)); // Case-insensitive
    assert_eq!(parse_file_size("1m"), Some(1024 * 1024)); // Case-insensitive
}

#[test]
fn test_parse_file_size_invalid() {
    // Test cases with invalid inputs
    assert_eq!(parse_file_size(""), None); // Empty string
    assert_eq!(parse_file_size("ABC"), None); // Non-numeric
    assert_eq!(parse_file_size("1.2.3"), None); // Invalid numeric format
    assert_eq!(parse_file_size("1X"), None); // Unknown unit
    assert_eq!(parse_file_size("-1"), None); // Negative number (if not supported)
}

#[test]
fn test_parse_file_size_edge_cases() {
    // Edge cases
    assert_eq!(parse_file_size("0"), Some(0)); // Zero value
    assert_eq!(parse_file_size("0B"), Some(0)); // Zero with unit
    assert_eq!(
        parse_file_size("999999999999T"),
        Some((999999999999.0 * 1024.0 * 1024.0 * 1024.0 * 1024.0) as usize)
    );
}

#[test]
fn test_parse_file_size_more_forms() {
    // fractions truncate toward zero
    assert_eq!(parse_file_size("1.5K"), Some(1536));
    assert_eq!(parse_file_size("0.0001K"), Some(0));
    // a sign is accepted; a negative zero is still zero
    assert_eq!(parse_file_size("+2K"), Some(2048));
    assert_eq!(parse_file_size("-0"), Some(0));
    // a bare unit, a lone dot or sign have no digits
    assert_eq!(parse_file_size("K"), None);
    assert_eq!(parse_file_size("."), None);
    assert_eq!(parse_file_size("-"), None);
    // whitespace inside the number is not trimmed away
    assert_eq!(parse_file_size("1 2"), None);
    // the size column's placeholder for directories
    assert_eq!(parse_file_size("-"), None);
}
