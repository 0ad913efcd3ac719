use rsaver::markdown::{parse_markdown_to_lines, MdLine, MdStyle};

fn render(lines: &[MdLine]) -> Vec<Vec<(String, MdStyle)>> {
    lines
        .iter()
        .map(|l| l.spans.iter().map(|s| (s.text.clone(), s.style)).collect())
        .collect()
}

fn one(text: &str, style: MdStyle) -> Vec<(String, MdStyle)> {
    vec![(text.to_string(), style)]
}

#[test]
fn markdown_headings_items_and_paragraphs() {
    let doc = "# Title\nsome text\ncontinued here\n\n## Section\n### Sub\n* first\n- second\n3. third\nplain";
    let out = render(&parse_markdown_to_lines(doc));
    let blank: Vec<(String, MdStyle)> = Vec::new();
    assert_eq!(out, vec![
        blank.clone(),
        one("=== TITLE ===", MdStyle::Title),
        blank.clone(),
        one("some text continued here", MdStyle::Text),
        blank.clone(),
        blank.clone(),
        one("--- Section ---", MdStyle::Title),
        blank.clone(),
        one("Sub", MdStyle::Accent),
        vec![(" • ".to_string(), MdStyle::Accent), ("first".to_string(), MdStyle::Text)],
        vec![(" • ".to_string(), MdStyle::Accent), ("second".to_string(), MdStyle::Text)],
        vec![("  3.  ".to_string(), MdStyle::Accent), ("third".to_string(), MdStyle::Text)],
        one("plain", MdStyle::Text),
    ]);
}

#[test]
fn markdown_code_blocks_are_verbatim() {
    let doc = "intro\n```rust\n  let x = 1;\n# not a heading\n```\nafter";
    let out = render(&parse_markdown_to_lines(doc));
    assert_eq!(out, vec![
        one("intro", MdStyle::Text),
        one("  let x = 1;", MdStyle::Code),
        one("# not a heading", MdStyle::Code),
        one("after", MdStyle::Text),
    ]);
}

#[test]
fn markdown_empty_and_trimmed() {
    assert!(parse_markdown_to_lines("").is_empty());
    let out = render(&parse_markdown_to_lines("   indented   \r\n\tline  "));
    assert_eq!(out, vec![one("indented line", MdStyle::Text)]);
    let out = render(&parse_markdown_to_lines("6. not numbered"));
    assert_eq!(out, vec![one("6. not numbered", MdStyle::Text)]);
}

#[test]
fn markdown_first_level_heading_is_upper_cased() {
    let out = render(&parse_markdown_to_lines("# straße"));
    assert_eq!(out[1], one("=== STRASSE ===", MdStyle::Title));
}
