use rust_bvh::{face_of_line, line_kind, nth_field, parse_index, FaceError, LineKind};

fn field_text(line: &str, k: usize) -> Option<&str> {
    nth_field(line.as_bytes(), k).map(|(start, end)| &line[start..end])
}

#[test]
fn empty_lines_and_comments_are_skipped() {
    assert_eq!(line_kind(b""), LineKind::Skip);
    assert_eq!(line_kind(b"# a comment"), LineKind::Skip);
    assert_eq!(line_kind(b"#"), LineKind::Skip);
    assert_eq!(line_kind(b"#f 1 2 3"), LineKind::Skip);
}

#[test]
fn first_field_tells_faces_from_vertices() {
    assert_eq!(line_kind(b"f 1 2 3"), LineKind::Face);
    assert_eq!(line_kind(b"f"), LineKind::Face);
    assert_eq!(line_kind(b"v 0.5 -1e3 2"), LineKind::Vertex);
    assert_eq!(line_kind(b"v"), LineKind::Vertex);
    assert_eq!(line_kind(b"vn 0 0 1"), LineKind::Unknown);
    assert_eq!(line_kind(b"ff 1 2 3"), LineKind::Unknown);
    assert_eq!(line_kind(b"g bunny"), LineKind::Unknown);
    assert_eq!(line_kind(b" f 1 2 3"), LineKind::Unknown);
    assert_eq!(line_kind(b"F 1 2 3"), LineKind::Unknown);
    assert_eq!(line_kind(b"f\t1 2 3"), LineKind::Unknown);
}

#[test]
fn fields_are_parted_by_single_spaces() {
    let line = "v 0.5 -1e3 2";
    assert_eq!(field_text(line, 0), Some("v"));
    assert_eq!(field_text(line, 1), Some("0.5"));
    assert_eq!(field_text(line, 2), Some("-1e3"));
    assert_eq!(field_text(line, 3), Some("2"));
    assert_eq!(field_text(line, 4), None);
    assert_eq!(nth_field(line.as_bytes(), 2), Some((6, 10)));
    assert_eq!(field_text("", 0), Some(""));
    assert_eq!(field_text("", 1), None);
    assert_eq!(field_text("abc", 0), Some("abc"));
    assert_eq!(field_text("abc", usize::MAX), None);
}

#[test]
fn two_spaces_hold_an_empty_field() {
    let line = "f  1 2 ";
    assert_eq!(field_text(line, 0), Some("f"));
    assert_eq!(field_text(line, 1), Some(""));
    assert_eq!(field_text(line, 2), Some("1"));
    assert_eq!(field_text(line, 3), Some("2"));
    assert_eq!(field_text(line, 4), Some(""));
    assert_eq!(field_text(line, 5), None);
}

#[test]
fn index_is_decimal_digits_after_an_optional_plus() {
    assert_eq!(parse_index(b"0"), Some(0));
    assert_eq!(parse_index(b"7"), Some(7));
    assert_eq!(parse_index(b"1234"), Some(1234));
    assert_eq!(parse_index(b"+42"), Some(42));
    assert_eq!(parse_index(b"007"), Some(7));
    assert_eq!(parse_index(b""), None);
    assert_eq!(parse_index(b"+"), None);
    assert_eq!(parse_index(b"-1"), None);
    assert_eq!(parse_index(b"++1"), None);
    assert_eq!(parse_index(b"1+"), None);
    assert_eq!(parse_index(b"12a"), None);
    assert_eq!(parse_index(b"1.0"), None);
    assert_eq!(parse_index(b" 1"), None);
    assert_eq!(parse_index(b"1/2/3"), None);
}

#[test]
fn index_reads_as_the_standard_parser_does() {
    for token in ["0", "+0", "18", "+", "", "-0", "0x10", "99999999999999999999999", "1_000", "٣"] {
        assert_eq!(parse_index(token.as_bytes()), token.parse::<usize>().ok(), "{token}");
    }
}

#[test]
fn index_must_fit() {
    let max = usize::MAX.to_string();
    assert_eq!(parse_index(max.as_bytes()), Some(usize::MAX));
    let padded = format!("+000{max}");
    assert_eq!(parse_index(padded.as_bytes()), Some(usize::MAX));
    let mut over = max.clone().into_bytes();
    let last = over.len() - 1;
    over[last] += 1;
    assert_eq!(parse_index(&over), None);
    let longer = format!("{max}0");
    assert_eq!(parse_index(longer.as_bytes()), None);
    let longer_bad = format!("{max}0x");
    assert_eq!(parse_index(longer_bad.as_bytes()), None);
}

#[test]
fn face_line_gives_three_indices() {
    assert_eq!(face_of_line(b"f 1 2 3"), Ok((1, 2, 3)));
    assert_eq!(face_of_line(b"f 10 +20 030"), Ok((10, 20, 30)));
    assert_eq!(face_of_line(b"f 1 2 3 4"), Ok((1, 2, 3)));
    assert_eq!(face_of_line(b"f 0 0 0"), Ok((0, 0, 0)));
}

#[test]
fn face_line_with_too_few_fields_misses_one() {
    assert_eq!(face_of_line(b"f"), Err(FaceError::MissingField));
    assert_eq!(face_of_line(b"f 1"), Err(FaceError::MissingField));
    assert_eq!(face_of_line(b"f 1 2"), Err(FaceError::MissingField));
    assert_eq!(face_of_line(b""), Err(FaceError::MissingField));
}

#[test]
fn face_line_with_a_bad_field_holds_no_number() {
    assert_eq!(face_of_line(b"f 1 x 3"), Err(FaceError::NotANumber));
    assert_eq!(face_of_line(b"f 1/1 2/2 3/3"), Err(FaceError::NotANumber));
    assert_eq!(face_of_line(b"f 1 2 "), Err(FaceError::NotANumber));
    assert_eq!(face_of_line(b"f  1 2 3"), Err(FaceError::NotANumber));
    assert_eq!(face_of_line(b"f 1 2 -3"), Err(FaceError::NotANumber));
}

#[test]
fn first_fault_of_a_face_line_decides() {
    // the bad first index comes before the missing third
    assert_eq!(face_of_line(b"f x 2"), Err(FaceError::NotANumber));
    // the missing third comes after two good ones
    assert_eq!(face_of_line(b"f 1 2"), Err(FaceError::MissingField));
    assert_eq!(face_of_line(b"f 1 x"), Err(FaceError::NotANumber));
}
