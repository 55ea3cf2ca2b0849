use dagger::ansi_art::{apply_sgr, bright_color, parse_line, standard_color, AnsiColor, SpanStyle};

#[test]
fn plain_text_with_no_codes_renders_as_one_span() {
    let line = parse_line("hello");
    assert_eq!(line.len(), 1);
    assert_eq!(line[0].text, "hello");
}

#[test]
fn reset_then_fg_bg_applies_both_colors() {
    let line = parse_line("\u{1b}[0;34;40ma");
    assert_eq!(line.len(), 1);
    assert_eq!(line[0].style.fg, Some(AnsiColor::Blue));
    assert_eq!(line[0].style.bg, Some(AnsiColor::Black));
}

#[test]
fn bright_fg_and_bg_use_the_light_palette() {
    let line = parse_line("\u{1b}[0;97;47mx");
    assert_eq!(line[0].style.fg, Some(AnsiColor::White));
    assert_eq!(line[0].style.bg, Some(AnsiColor::Gray));
}

#[test]
fn multiple_runs_in_one_line_produce_separate_spans() {
    let line = parse_line("\u{1b}[0;34;40mAB\u{1b}[0;37;40mCD");
    assert_eq!(line.len(), 2);
    assert_eq!(line[0].text, "AB");
    assert_eq!(line[1].text, "CD");
    assert_eq!(line[0].style.fg, Some(AnsiColor::Blue));
    assert_eq!(line[1].style.fg, Some(AnsiColor::Gray));
}

#[test]
fn empty_line_has_no_spans() {
    assert!(parse_line("").is_empty());
    assert!(parse_line("\u{1b}[0m").is_empty());
}

#[test]
fn text_before_the_first_code_is_unstyled() {
    let line = parse_line("ab\u{1b}[31mcd");
    assert_eq!(line.len(), 2);
    assert_eq!(line[0].text, "ab");
    assert_eq!(line[0].style, SpanStyle { fg: None, bg: None });
    assert_eq!(line[1].text, "cd");
    assert_eq!(line[1].style, SpanStyle { fg: Some(AnsiColor::Red), bg: None });
}

#[test]
fn a_reset_clears_both_colors_and_styles_carry_over() {
    let line = parse_line("\u{1b}[31;42ma\u{1b}[94mb\u{1b}[0mc");
    assert_eq!(line.len(), 3);
    assert_eq!(line[0].style, SpanStyle { fg: Some(AnsiColor::Red), bg: Some(AnsiColor::Green) });
    assert_eq!(line[1].style, SpanStyle { fg: Some(AnsiColor::LightBlue), bg: Some(AnsiColor::Green) });
    assert_eq!(line[2].style, SpanStyle { fg: None, bg: None });
}

#[test]
fn escape_without_bracket_is_text_and_unterminated_code_runs_to_the_end() {
    let line = parse_line("a\u{1b}b");
    assert_eq!(line.len(), 1);
    assert_eq!(line[0].text, "a\u{1b}b");
    let line = parse_line("x\u{1b}[31");
    assert_eq!(line.len(), 1);
    assert_eq!(line[0].text, "x");
}

#[test]
fn unknown_and_malformed_parameters_are_skipped() {
    let plain = SpanStyle { fg: None, bg: None };
    let code: Vec<char> = "1;;+32;abc;70000;-1;103".chars().collect();
    let style = apply_sgr(plain, &code);
    assert_eq!(style, SpanStyle { fg: Some(AnsiColor::Green), bg: Some(AnsiColor::LightYellow) });
}

#[test]
fn palettes() {
    assert_eq!(standard_color(0), AnsiColor::Black);
    assert_eq!(standard_color(6), AnsiColor::Cyan);
    assert_eq!(standard_color(9), AnsiColor::Reset);
    assert_eq!(bright_color(0), AnsiColor::DarkGray);
    assert_eq!(bright_color(5), AnsiColor::LightMagenta);
    assert_eq!(bright_color(8), AnsiColor::Reset);
}
