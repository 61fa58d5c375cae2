use laser_cutter::gcode::{format_line, parse_op, scan_line, Field, GCodeOp};

fn numbers(line: &str) -> Vec<(Field, String)> {
    scan_line(line)
        .numbers
        .into_iter()
        .map(|t| (t.field, String::from_utf8(t.text).unwrap()))
        .collect()
}

fn code(line: &str) -> Option<String> {
    scan_line(line).code.map(|c| String::from_utf8(c).unwrap())
}

#[test]
fn labels_of_operations() {
    assert_eq!(GCodeOp::G0.label(), "G0 ");
    assert_eq!(GCodeOp::G21.label(), "G21 ");
    assert_eq!(GCodeOp::UNKNOWN.label(), "UNKNOWN ");
}

#[test]
fn only_rapid_moves_are_recognised() {
    assert_eq!(parse_op(b"G0"), Some(GCodeOp::G0));
    assert_eq!(parse_op(b"g0"), Some(GCodeOp::G0));
    assert_eq!(parse_op(b"G1"), None);
    assert_eq!(parse_op(b"G00"), None);
    assert_eq!(parse_op(b"M4"), None);
    assert_eq!(parse_op(b""), None);
}

#[test]
fn scan_rapid_move() {
    assert_eq!(code("G0 X1.5 Y-2"), Some("G0".to_string()));
    assert_eq!(
        numbers("G0 X1.5 Y-2"),
        vec![(Field::X, "1.5".to_string()), (Field::Y, "-2".to_string())]
    );
}

#[test]
fn scan_stops_at_comment() {
    assert_eq!(code("G21         ; Set units to mm G0"), Some("G21".to_string()));
    assert_eq!(numbers("X1 ; Y2"), vec![(Field::X, "1".to_string())]);
    assert_eq!(numbers(";X1 Y2"), vec![]);
}

#[test]
fn scan_last_code_wins_and_letters_ignore_case() {
    assert_eq!(code("M4 g0 x3 y4 s5 f6"), Some("g0".to_string()));
    assert_eq!(
        numbers("M4 g0 x3 y4 s5 f6"),
        vec![
            (Field::X, "3".to_string()),
            (Field::Y, "4".to_string()),
            (Field::S, "5".to_string()),
            (Field::F, "6".to_string()),
        ]
    );
}

#[test]
fn scan_whitespace_kinds_and_unknown_words() {
    assert_eq!(numbers("\tX1\r\nZ9  Y2\x0c"), vec![(Field::X, "1".to_string()), (Field::Y, "2".to_string())]);
    assert_eq!(code("   "), None);
    assert_eq!(numbers(""), vec![]);
}

#[test]
fn format_full_line() {
    let s = format_line(Some(GCodeOp::G1), Some(("1", "2")), Some("1000"), Some("100"), Some("cut"));
    assert_eq!(s, "G1 X1 Y2 S1000 F100 ; cut");
}

#[test]
fn format_empty_line() {
    assert_eq!(format_line(None, None, None, None, None), "; ");
}

#[test]
fn format_then_scan_gives_back_the_numbers() {
    let s = format_line(Some(GCodeOp::G0), Some(("3.25", "-4")), None, Some("7"), Some("X9 Y9"));
    assert_eq!(parse_op(&scan_line(&s).code.unwrap()), Some(GCodeOp::G0));
    assert_eq!(
        numbers(&s),
        vec![(Field::X, "3.25".to_string()), (Field::Y, "-4".to_string()), (Field::F, "7".to_string())]
    );
    let g1 = format_line(Some(GCodeOp::G1), Some(("1", "1")), None, None, None);
    assert_eq!(parse_op(&scan_line(&g1).code.unwrap()), None);
}
