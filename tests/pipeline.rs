use transcriptparser::extract::TextState;
use transcriptparser::text::{decode_text, is_blank, parse_line_number, same_text};
use transcriptparser::{
    merge_lines, parse_pdf_transcript, parse_text_objects_on_page, sort_text_objects_to_lines,
    text_objects, transform_to_line_object, Gender, Line, Operand, Operation, PageSettings,
    Paragraph, Speaker, Statement, TextObject, TextObjectParser, Transcript, TranscriptError,
    UndecodableText, ROW_TOLERANCE, UNITS_PER_POINT,
};

fn pt(v: i64) -> i64 {
    v * UNITS_PER_POINT
}

fn op(name: &str, operands: Vec<Operand>) -> Operation {
    Operation { operator: name.to_string(), operands }
}

fn text(s: &str) -> Operand {
    Operand::Text(s.as_bytes().to_vec())
}

fn num(v: i64) -> Operand {
    Operand::Number(pt(v))
}

fn block(x: i64, y: i64, s: &str) -> Vec<Operation> {
    vec![
        op("BT", vec![]),
        op("Td", vec![num(x), num(y)]),
        op("Tj", vec![text(s)]),
        op("ET", vec![]),
    ]
}

fn obj(x: i64, y: i64, s: &str) -> TextObject {
    TextObject { x: pt(x), y: pt(y), text: s.to_string() }
}

fn settings() -> PageSettings {
    PageSettings::new(pt(112), pt(200))
}

#[test]
fn settings_defaults() {
    let s = settings();
    assert_eq!(s.starting_page_number, 1);
    assert_eq!(s.margin_left_x, 0);
    assert_eq!(s.line_number_limit_x, 112_000);
    assert_eq!(s.indent_left_position_x, 200_000);
    assert_eq!(s.margin_bottom_y, 27_000);
    assert_eq!(s.margin_top_y, 10_000_000);
    assert_eq!(s.margin_right_x, 10_000_000);
    assert_eq!(ROW_TOLERANCE, 5_000);
}

#[test]
fn line_numbers_parse_like_unsigned_integers() {
    assert_eq!(parse_line_number("12"), Some(12));
    assert_eq!(parse_line_number("+7"), Some(7));
    assert_eq!(parse_line_number("007"), Some(7));
    assert_eq!(parse_line_number("4294967295"), Some(u32::MAX));
    assert_eq!(parse_line_number("4294967296"), None);
    assert_eq!(parse_line_number("99999999999x"), None);
    assert_eq!(parse_line_number(" "), None);
    assert_eq!(parse_line_number(""), None);
    assert_eq!(parse_line_number("+"), None);
    assert_eq!(parse_line_number("-1"), None);
    assert_eq!(parse_line_number("1 "), None);
    for s in ["0", "1", "25", "+3", "x", "1a", "12345678901"] {
        assert_eq!(parse_line_number(s), s.parse::<u32>().ok());
    }
}

#[test]
fn blank_fragments() {
    assert!(is_blank(""));
    assert!(is_blank(" \t\u{a0}\u{3000}"));
    assert!(!is_blank(" a "));
    assert!(same_text("Tj", "Tj"));
    assert!(!same_text("Tj", "TJ"));
    assert!(!same_text("T", "Tj"));
}

#[test]
fn decoding_document_strings() {
    assert_eq!(decode_text(&b"Hello".to_vec()), Some("Hello".to_string()));
    assert_eq!(decode_text(&vec![]), Some(String::new()));
    assert_eq!(decode_text(&vec![0xfe, 0xff, 0x00, 0x41, 0x00, 0xe9]), Some("A\u{e9}".to_string()));
    assert_eq!(decode_text(&vec![0xfe, 0xff, 0x00]), None);
    assert_eq!(decode_text(&vec![0xff, 0xfe, 0x80]), None);
}

#[test]
fn block_without_text_yields_nothing() {
    let ops = vec![op("BT", vec![]), op("Td", vec![num(50), num(50)]), op("ET", vec![])];
    assert_eq!(text_objects(&ops), Ok(vec![]));
}

#[test]
fn block_without_coordinates_yields_nothing() {
    let ops = vec![op("BT", vec![]), op("Tj", vec![text("a")]), op("ET", vec![])];
    assert_eq!(text_objects(&ops), Ok(vec![]));
}

#[test]
fn extractor_yields_objects_in_stream_order() {
    let mut ops = block(150, 500, "Hello");
    ops.extend(block(90, 600, "1"));
    assert_eq!(text_objects(&ops), Ok(vec![obj(150, 500, "Hello"), obj(90, 600, "1")]));
}

#[test]
fn text_matrix_sets_coordinates_from_its_translation() {
    let ops = vec![
        op("BT", vec![]),
        op("Tm", vec![num(1), num(0), num(0), num(1), num(72), num(700)]),
        op("Tj", vec![text("x")]),
        op("ET", vec![]),
        op("BT", vec![]),
        op("Tm", vec![num(1), num(0), num(72), num(700)]),
        op("Tj", vec![text("y")]),
        op("ET", vec![]),
        op("BT", vec![]),
        op("Tm", vec![num(1), num(0), num(0), num(1), text("a"), num(700)]),
        op("Tj", vec![text("z")]),
        op("ET", vec![]),
    ];
    assert_eq!(text_objects(&ops), Ok(vec![obj(72, 700, "x")]));
}

#[test]
fn text_arrays_join_their_strings() {
    let ops = vec![
        op("BT", vec![]),
        op("Td", vec![num(150), num(500)]),
        op("TJ", vec![Operand::Array(vec![text("Hel"), num(-120), text("lo"), Operand::Other])]),
        op("ET", vec![]),
        op("BT", vec![]),
        op("Td", vec![num(150), num(400)]),
        op("Tj", vec![Operand::Array(vec![text("a"), text("b")])]),
        op("ET", vec![]),
    ];
    assert_eq!(text_objects(&ops), Ok(vec![obj(150, 500, "Hello"), obj(150, 400, "ab")]));
}

#[test]
fn begin_text_discards_pending_state() {
    let ops = vec![
        op("Td", vec![num(10), num(10)]),
        op("BT", vec![]),
        op("Tj", vec![text("a")]),
        op("ET", vec![]),
        op("BT", vec![]),
        op("Td", vec![num(150), num(500)]),
        op("Tj", vec![text("b")]),
    ];
    assert_eq!(text_objects(&ops), Ok(vec![]));
}

#[test]
fn malformed_operands_are_ignored() {
    let ops = vec![
        op("BT", vec![]),
        op("Td", vec![num(150)]),
        op("Td", vec![num(150), text("5")]),
        op("Tj", vec![num(3)]),
        op("Tf", vec![text("F1"), num(12)]),
        op("Tj", vec![text("a")]),
        op("ET", vec![]),
    ];
    assert_eq!(text_objects(&ops), Ok(vec![]));
}

#[test]
fn undecodable_text_fails_the_page() {
    let ops = vec![
        op("BT", vec![]),
        op("Td", vec![num(150), num(500)]),
        op("Tj", vec![Operand::Text(vec![0xc3, 0x28])]),
        op("ET", vec![]),
    ];
    assert_eq!(text_objects(&ops), Err(UndecodableText));
    let ops = vec![op("TJ", vec![Operand::Array(vec![text("a"), Operand::Text(vec![0xfe, 0xff, 0x00])])])];
    assert_eq!(text_objects(&ops), Err(UndecodableText));
}

#[test]
fn parser_feeds_one_operation_at_a_time() {
    let mut p = TextObjectParser::new();
    assert_eq!(p.state, TextState::Idle);
    assert_eq!(p.feed(&op("BT", vec![])), Ok(None));
    assert_eq!(p.feed(&op("Tj", vec![text("hi")])), Ok(None));
    assert_eq!(p.state, TextState::Shown { text: "hi".to_string() });
    assert_eq!(p.feed(&op("Td", vec![num(150), num(500)])), Ok(None));
    assert_eq!(p.feed(&op("ET", vec![])), Ok(Some(obj(150, 500, "hi"))));
    assert_eq!(p.state, TextState::Idle);
}

#[test]
fn reading_order_is_top_down_then_left_right() {
    let objects = vec![
        obj(300, 400, "d"),
        obj(200, 500, "b"),
        obj(90, 500, "a"),
        obj(90, 400, "c"),
        obj(100, 600, "top"),
    ];
    let rows = sort_text_objects_to_lines(objects);
    assert_eq!(
        rows,
        vec![
            vec![obj(100, 600, "top")],
            vec![obj(90, 500, "a"), obj(200, 500, "b")],
            vec![obj(90, 400, "c"), obj(300, 400, "d")],
        ]
    );
}

#[test]
fn reading_order_keeps_objects_at_one_place_in_stream_order() {
    let rows = sort_text_objects_to_lines(vec![obj(90, 500, "first"), obj(90, 500, "second")]);
    assert_eq!(rows, vec![vec![obj(90, 500, "first"), obj(90, 500, "second")]]);
}

#[test]
fn no_objects_give_no_rows() {
    assert_eq!(sort_text_objects_to_lines(vec![]), Vec::<Vec<TextObject>>::new());
    assert_eq!(merge_lines(vec![], ROW_TOLERANCE), Vec::<Vec<TextObject>>::new());
}

#[test]
fn rows_within_tolerance_merge() {
    let rows = vec![vec![obj(150, 503, "a")], vec![obj(90, 500, "1")]];
    let merged = merge_lines(rows, pt(5));
    assert_eq!(merged, vec![vec![obj(150, 503, "a"), obj(90, 500, "1")]]);
}

#[test]
fn rows_beyond_tolerance_stay_apart() {
    let rows = vec![vec![obj(150, 503, "a")], vec![obj(90, 500, "1")]];
    let merged = merge_lines(rows, pt(2));
    assert_eq!(merged, vec![vec![obj(150, 503, "a")], vec![obj(90, 500, "1")]]);
}

#[test]
fn merging_measures_from_the_first_row_of_a_merge() {
    let rows = vec![
        vec![obj(100, 510, "a")],
        vec![obj(100, 507, "b")],
        vec![obj(100, 504, "c")],
        vec![obj(100, 490, "d")],
    ];
    let merged = merge_lines(rows, pt(5));
    assert_eq!(
        merged,
        vec![
            vec![obj(100, 510, "a"), obj(100, 507, "b")],
            vec![obj(100, 504, "c")],
            vec![obj(100, 490, "d")],
        ]
    );
}

#[test]
fn merging_twice_changes_nothing() {
    let rows = vec![
        vec![obj(100, 510, "a")],
        vec![obj(100, 507, "b")],
        vec![obj(100, 504, "c")],
        vec![obj(100, 503, "d")],
        vec![obj(100, 400, "e")],
    ];
    let once = merge_lines(rows, pt(5));
    let twice = merge_lines(once.clone(), pt(5));
    assert_eq!(once, twice);
}

#[test]
fn line_number_alone() {
    let line = transform_to_line_object(&vec![obj(90, 500, "12")], 1, &settings());
    assert_eq!(line, Line { page: 1, line: 12, text: None, x: None, y: None });
}

#[test]
fn line_number_and_body_text() {
    let row = vec![obj(90, 500, "7"), obj(150, 500, "Hello "), obj(160, 500, "world")];
    let line = transform_to_line_object(&row, 3, &settings());
    assert_eq!(
        line,
        Line { page: 3, line: 7, text: Some("Hello world".to_string()), x: Some(pt(150)), y: Some(pt(500)) }
    );
}

#[test]
fn object_on_the_column_edge_is_dropped() {
    let row = vec![obj(112, 500, "5"), obj(150, 500, "a")];
    let line = transform_to_line_object(&row, 1, &settings());
    assert_eq!(line.line, 0);
    assert_eq!(line.text, Some("a".to_string()));
    let row = vec![obj(150, 500, "a"), obj(112, 500, "b")];
    assert_eq!(transform_to_line_object(&row, 1, &settings()).text, Some("a".to_string()));
}

#[test]
fn leading_blank_body_fragments_do_not_anchor() {
    let row = vec![obj(130, 500, "  "), obj(150, 501, "Q."), obj(170, 500, " "), obj(180, 500, "Yes")];
    let line = transform_to_line_object(&row, 1, &settings());
    assert_eq!(line.text, Some("Q. Yes".to_string()));
    assert_eq!((line.x, line.y), (Some(pt(150)), Some(pt(501))));
}

#[test]
fn unparsable_line_number_keeps_the_last() {
    let row = vec![obj(90, 500, "4"), obj(95, 500, " "), obj(100, 500, "x")];
    assert_eq!(transform_to_line_object(&row, 1, &settings()).line, 4);
}

#[test]
fn objects_outside_the_print_region_are_dropped() {
    let row = vec![
        obj(-1, 500, "9"),
        obj(90, 20, "8"),
        obj(150, 20, "low"),
        obj(150, 20_000, "high"),
        obj(20_000, 500, "far"),
    ];
    let line = transform_to_line_object(&row, 1, &settings());
    assert_eq!(line, Line { page: 1, line: 0, text: None, x: None, y: None });
}

#[test]
fn empty_page_has_no_lines() {
    assert_eq!(parse_text_objects_on_page(&Some(vec![]), &settings(), 1), Ok(vec![]));
    assert_eq!(parse_text_objects_on_page(&None, &settings(), 1), Ok(vec![]));
}

#[test]
fn empty_rows_are_left_out() {
    let mut ops = block(150, 600, "   ");
    ops.extend(block(90, 500, "3"));
    ops.extend(block(150, 502, "Answer"));
    ops.extend(block(95, 400, " "));
    let lines = parse_text_objects_on_page(&Some(ops), &settings(), 2).unwrap();
    assert_eq!(
        lines,
        vec![Line { page: 2, line: 3, text: Some("Answer".to_string()), x: Some(pt(150)), y: Some(pt(502)) }]
    );
    assert!(lines.iter().all(|l| l.line != 0 || l.text.is_some()));
}

#[test]
fn document_lines_follow_page_order() {
    let mut first = block(90, 700, "1");
    first.extend(block(150, 700, "Q. Name?"));
    first.extend(block(90, 680, "2"));
    first.extend(block(150, 680, "A. Smith."));
    let second = block(150, 700, "MR. JONES: Objection.");
    let pages = vec![Some(first), None, Some(second)];
    let mut s = settings();
    s.starting_page_number = 5;
    let lines = parse_pdf_transcript(&pages, &s).unwrap();
    let got: Vec<(usize, u32, Option<String>)> = lines.into_iter().map(|l| (l.page, l.line, l.text)).collect();
    assert_eq!(
        got,
        vec![
            (5, 1, Some("Q. Name?".to_string())),
            (5, 2, Some("A. Smith.".to_string())),
            (7, 0, Some("MR. JONES: Objection.".to_string())),
        ]
    );
}

#[test]
fn undecodable_page_fails_the_document() {
    let bad = vec![op("Tj", vec![Operand::Text(vec![0xff])])];
    let pages = vec![Some(block(150, 700, "ok")), None, Some(bad)];
    assert_eq!(parse_pdf_transcript(&pages, &settings()), Err(TranscriptError::UndecodableText { page: 3 }));
}

#[test]
fn transcript_model_holds_lines() {
    let speaker = Speaker { name: "MR. JONES".to_string(), gender: Gender::Male };
    let line = Line { page: 1, line: 1, text: Some("Q. Hello".to_string()), x: Some(0), y: Some(0) };
    let statement = Statement { speaker, paragraphs: vec![Paragraph { lines: vec![line] }], is_question: true };
    let t = Transcript { sections: vec![statement] };
    assert_eq!(t.sections[0].paragraphs[0].lines[0].line, 1);
    assert_eq!(t.sections[0].speaker.gender, Gender::Male);
}
