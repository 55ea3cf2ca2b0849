//! A minimal ANSI SGR (Select Graphic Rendition) reader, enough to render
//! the splash logo as styled runs of text: `ESC [ codes m` sequences set the
//! style (reset, standard or bright foreground and background colours), all
//! other characters are text. No cursor movement, no 256-colour or true
//! colour, no bold or italic.

use vstd::prelude::*;
use crate::text::{chars_of, is_digit, decimal_value, split_on, split_chars};

verus! {

/// A terminal colour of the 16-colour palette, or the terminal's default.
#[derive(Debug, Clone, Copy, PartialEq, Eq, Structural)]
pub enum AnsiColor {
    Black,
    Red,
    Green,
    Yellow,
    Blue,
    Magenta,
    Cyan,
    Gray,
    DarkGray,
    LightRed,
    LightGreen,
    LightYellow,
    LightBlue,
    LightMagenta,
    LightCyan,
    White,
    Reset,
}

/// The colours of a run of text; `None` leaves the terminal's own.
#[derive(Debug, Clone, Copy, PartialEq, Eq, Structural)]
pub struct SpanStyle {
    pub fg: Option<AnsiColor>,
    pub bg: Option<AnsiColor>,
}

/// A run of text in one style.
#[derive(Debug)]
pub struct StyledSpan {
    pub text: String,
    pub style: SpanStyle,
}

/// The style with no colours set.
pub open spec fn plain_style() -> SpanStyle {
    SpanStyle { fg: None, bg: None }
}

/// The colour of a standard-palette index (SGR 30–37 and 40–47).
pub open spec fn standard(index: nat) -> AnsiColor {
    if index == 0 {
        AnsiColor::Black
    } else if index == 1 {
        AnsiColor::Red
    } else if index == 2 {
        AnsiColor::Green
    } else if index == 3 {
        AnsiColor::Yellow
    } else if index == 4 {
        AnsiColor::Blue
    } else if index == 5 {
        AnsiColor::Magenta
    } else if index == 6 {
        AnsiColor::Cyan
    } else if index == 7 {
        AnsiColor::Gray
    } else {
        AnsiColor::Reset
    }
}

/// The colour of a bright-palette index (SGR 90–97 and 100–107).
pub open spec fn bright(index: nat) -> AnsiColor {
    if index == 0 {
        AnsiColor::DarkGray
    } else if index == 1 {
        AnsiColor::LightRed
    } else if index == 2 {
        AnsiColor::LightGreen
    } else if index == 3 {
        AnsiColor::LightYellow
    } else if index == 4 {
        AnsiColor::LightBlue
    } else if index == 5 {
        AnsiColor::LightMagenta
    } else if index == 6 {
        AnsiColor::LightCyan
    } else if index == 7 {
        AnsiColor::White
    } else {
        AnsiColor::Reset
    }
}

/// The colour of a standard-palette index.
pub fn standard_color(index: u16) -> (res: AnsiColor)
    ensures
        res == standard(index as nat),
{
    match index {
        0 => AnsiColor::Black,
        1 => AnsiColor::Red,
        2 => AnsiColor::Green,
        3 => AnsiColor::Yellow,
        4 => AnsiColor::Blue,
        5 => AnsiColor::Magenta,
        6 => AnsiColor::Cyan,
        7 => AnsiColor::Gray,
        _ => AnsiColor::Reset,
    }
}

/// The colour of a bright-palette index.
pub fn bright_color(index: u16) -> (res: AnsiColor)
    ensures
        res == bright(index as nat),
{
    match index {
        0 => AnsiColor::DarkGray,
        1 => AnsiColor::LightRed,
        2 => AnsiColor::LightGreen,
        3 => AnsiColor::LightYellow,
        4 => AnsiColor::LightBlue,
        5 => AnsiColor::LightMagenta,
        6 => AnsiColor::LightCyan,
        7 => AnsiColor::White,
        _ => AnsiColor::Reset,
    }
}

/// The style after one SGR parameter `n`: 0 resets; 30–37 and 90–97 set
/// the foreground, 40–47 and 100–107 the background; others change
/// nothing.
pub open spec fn sgr_step(style: SpanStyle, n: nat) -> SpanStyle {
    if n == 0 {
        plain_style()
    } else if 30 <= n <= 37 {
        SpanStyle { fg: Some(standard((n - 30) as nat)), ..style }
    } else if 90 <= n <= 97 {
        SpanStyle { fg: Some(bright((n - 90) as nat)), ..style }
    } else if 40 <= n <= 47 {
        SpanStyle { bg: Some(standard((n - 40) as nat)), ..style }
    } else if 100 <= n <= 107 {
        SpanStyle { bg: Some(bright((n - 100) as nat)), ..style }
    } else {
        style
    }
}

/// What `str::parse::<u16>` reads from `s`: an optional `+` followed by
/// one or more decimal digits whose value fits in `u16`; nothing from any
/// other text.
pub open spec fn u16_text_value(s: Seq<char>) -> Option<nat> {
    let digits = if s.len() > 0 && s[0] == '+' {
        s.drop_first()
    } else {
        s
    };
    if digits.len() > 0 && (forall|i: int| 0 <= i < digits.len() ==> is_digit(digits[i])) && decimal_value(digits)
        <= u16::MAX {
        Some(decimal_value(digits))
    } else {
        None
    }
}

/// `str::parse::<u16>`: an optional `+` and decimal digits, without
/// overflow, give a number; any other text gives an error.
#[verifier::external_body]
fn parse_u16(s: &str) -> (res: Option<u16>)
    ensures
        match u16_text_value(s@) {
            Some(v) => res == Some(v as u16),
            None => res is None,
        },
{
    s.parse::<u16>().ok()
}

/// The style after the parameters of one SGR sequence, read in order;
/// a parameter that is not a number is skipped.
pub open spec fn sgr_apply(style: SpanStyle, params: Seq<Seq<char>>) -> SpanStyle
    decreases params.len(),
{
    if params.len() == 0 {
        style
    } else {
        let before = sgr_apply(style, params.drop_last());
        match u16_text_value(params.last()) {
            Some(n) => sgr_step(before, n),
            None => before,
        }
    }
}

/// The style after the SGR sequence with parameters `code`.
pub fn apply_sgr(style: SpanStyle, code: &Vec<char>) -> (res: SpanStyle)
    ensures
        res == sgr_apply(style, split_on(code@, ';')),
{
    let params = split_chars(code, ';');
    let ghost ps = params@.map_values(|p: Vec<char>| p@);
    let mut st = style;
    let mut i: usize = 0;
    while i < params.len()
        invariant
            i <= params@.len(),
            ps == params@.map_values(|p: Vec<char>| p@),
            st == sgr_apply(style, ps.take(i as int)),
        decreases params@.len() - i,
    {
        assert(ps.take(i + 1).drop_last() =~= ps.take(i as int));
        let text = crate::text::string_of(&params[i]);
        match parse_u16(text.as_str()) {
            None => {},
            Some(n) => {
                st = if n == 0 {
                    SpanStyle { fg: None, bg: None }
                } else if 30 <= n && n <= 37 {
                    SpanStyle { fg: Some(standard_color(n - 30)), ..st }
                } else if 90 <= n && n <= 97 {
                    SpanStyle { fg: Some(bright_color(n - 90)), ..st }
                } else if 40 <= n && n <= 47 {
                    SpanStyle { bg: Some(standard_color(n - 40)), ..st }
                } else if 100 <= n && n <= 107 {
                    SpanStyle { bg: Some(bright_color(n - 100)), ..st }
                } else {
                    st
                };
            },
        }
        i = i + 1;
    }
    assert(ps.take(i as int) =~= ps);
    st
}

/// The index of the first `m` in `s` at or after `j`, or the length of
/// `s` if there is none.
pub open spec fn next_m(s: Seq<char>, j: int) -> int
    decreases s.len() - j,
{
    if j >= s.len() {
        s.len() as int
    } else if s[j] == 'm' {
        j
    } else {
        next_m(s, j + 1)
    }
}

/// The text and style of each span.
pub open spec fn spans_view(spans: Seq<StyledSpan>) -> Seq<(Seq<char>, SpanStyle)> {
    spans.map_values(|sp: StyledSpan| (sp.text@, sp.style))
}

/// The pending text as a span of its own, if there is any.
pub open spec fn flush(buf: Seq<char>, style: SpanStyle) -> Seq<(Seq<char>, SpanStyle)> {
    if buf.len() > 0 {
        seq![(buf, style)]
    } else {
        Seq::empty()
    }
}

/// The spans of `s` read from position `i` on, in style `style` with the
/// text `buf` pending. `ESC [` starts an SGR sequence that runs to the
/// next `m` (or the end of the line); it ends the pending span and sets
/// the style of the text after it. Every other character is text.
pub open spec fn line_spans(s: Seq<char>, i: int, style: SpanStyle, buf: Seq<char>) -> Seq<(Seq<char>, SpanStyle)>
    decreases s.len() + 1 - i,
{
    if i < 0 || i >= s.len() {
        flush(buf, style)
    } else if s[i] == '\x1b' && i + 1 < s.len() && s[i + 1] == '[' {
        let m = next_m(s, i + 2);
        proof {
            lemma_next_m(s, i + 2);
        }
        flush(buf, style) + line_spans(
            s,
            m + 1,
            sgr_apply(style, split_on(s.subrange(i + 2, m), ';')),
            Seq::empty(),
        )
    } else {
        line_spans(s, i + 1, style, buf.push(s[i]))
    }
}

/// `next_m` finds the first `m` at or after `j`, and lies between `j` and
/// the end of `s`.
pub proof fn lemma_next_m(s: Seq<char>, j: int)
    requires
        0 <= j,
    ensures
        j <= next_m(s, j) <= s.len() || (j > s.len() && next_m(s, j) == s.len()),
        next_m(s, j) < s.len() ==> s[next_m(s, j)] == 'm',
        forall|k: int| j <= k < next_m(s, j) ==> s[k] != 'm',
    decreases s.len() - j,
{
    if j < s.len() && s[j] != 'm' {
        lemma_next_m(s, j + 1);
    }
}

/// Splits one line of ANSI art into styled runs of text.
pub fn parse_line(raw: &str) -> (res: Vec<StyledSpan>)
    ensures
        spans_view(res@) == line_spans(raw@, 0, plain_style(), Seq::empty()),
{
    let cs = chars_of(raw);
    let n = cs.len();
    let ghost total = line_spans(cs@, 0, plain_style(), Seq::empty());
    let mut spans: Vec<StyledSpan> = Vec::new();
    let mut style = SpanStyle { fg: None, bg: None };
    let mut buf: Vec<char> = Vec::new();
    let mut i: usize = 0;
    assert(spans_view(spans@) + line_spans(cs@, 0, style, buf@) =~= total);
    while i < n
        invariant
            i <= n,
            n == cs@.len(),
            cs@ == raw@,
            total == line_spans(cs@, 0, plain_style(), Seq::empty()),
            spans_view(spans@) + line_spans(cs@, i as int, style, buf@) == total,
        decreases n - i,
    {
        if cs[i] == '\x1b' && i + 1 < n && cs[i + 1] == '[' {
            let ghost before = spans_view(spans@);
            let ghost pending = buf@;
            let ghost old_style = style;
            let ghost old_i = i as int;
            if buf.len() > 0 {
                let text = crate::text::string_of(&buf);
                spans.push(StyledSpan { text, style });
                buf = Vec::new();
            }
            assert(spans_view(spans@) =~= before + flush(pending, style));
            let mut code: Vec<char> = Vec::new();
            let mut j: usize = i + 2;
            proof {
                lemma_next_m(cs@, i + 2);
            }
            while j < n && cs[j] != 'm'
                invariant
                    i + 2 <= j <= n,
                    n == cs@.len(),
                    next_m(cs@, i + 2) == next_m(cs@, j as int),
                    code@ == cs@.subrange(i + 2, j as int),
                decreases n - j,
            {
                code.push(cs[j]);
                assert(cs@.subrange(i + 2, j + 1) =~= cs@.subrange(i + 2, j as int).push(cs@[j as int]));
                j = j + 1;
            }
            let ghost m = next_m(cs@, i + 2);
            assert(m == j);
            style = apply_sgr(style, &code);
            i = if j < n { j + 1 } else { n };
            proof {
                lemma_next_m(cs@, old_i + 2);
                assert(line_spans(cs@, old_i, old_style, pending) == flush(pending, old_style) + line_spans(
                    cs@,
                    m + 1,
                    sgr_apply(old_style, split_on(cs@.subrange(old_i + 2, m), ';')),
                    Seq::empty(),
                ));
                assert(buf@ =~= Seq::<char>::empty());
                assert(code@ =~= cs@.subrange(old_i + 2, m));
                assert(style == sgr_apply(old_style, split_on(cs@.subrange(old_i + 2, m), ';')));
                assert(line_spans(cs@, m + 1, style, buf@) == line_spans(cs@, i as int, style, buf@));
                assert(spans_view(spans@) + line_spans(cs@, i as int, style, buf@) =~= total);
            }
        } else {
            buf.push(cs[i]);
            i = i + 1;
        }
    }
    if buf.len() > 0 {
        let text = crate::text::string_of(&buf);
        spans.push(StyledSpan { text, style });
    }
    proof {
        assert(spans_view(spans@) =~= total);
    }
    spans
}

proof fn lemma_plain_from(s: Seq<char>, i: int, style: SpanStyle, buf: Seq<char>)
    requires
        0 <= i <= s.len(),
        forall|k: int| i <= k < s.len() ==> s[k] != '\x1b',
    ensures
        line_spans(s, i, style, buf) == flush(buf + s.subrange(i, s.len() as int), style),
    decreases s.len() - i,
{
    if i < s.len() {
        lemma_plain_from(s, i + 1, style, buf.push(s[i]));
        assert(buf.push(s[i]) + s.subrange(i + 1, s.len() as int) =~= buf + s.subrange(i, s.len() as int));
    } else {
        assert(buf + s.subrange(i, s.len() as int) =~= buf);
    }
}

/// A line without escape characters is one span of plain text (none at
/// all when the line is empty).
pub proof fn law_plain_text_is_one_span(s: Seq<char>)
    requires
        forall|k: int| 0 <= k < s.len() ==> s[k] != '\x1b',
    ensures
        line_spans(s, 0, plain_style(), Seq::empty()) == flush(s, plain_style()),
{
    lemma_plain_from(s, 0, plain_style(), Seq::empty());
    assert(Seq::<char>::empty() + s.subrange(0, s.len() as int) =~= s);
}

/// The visible text of `s` from position `i` on: every character that is
/// not part of an SGR sequence, in order.
pub open spec fn visible_from(s: Seq<char>, i: int) -> Seq<char>
    decreases s.len() + 1 - i,
{
    if i < 0 || i >= s.len() {
        Seq::empty()
    } else if s[i] == '\x1b' && i + 1 < s.len() && s[i + 1] == '[' {
        proof {
            lemma_next_m(s, i + 2);
        }
        visible_from(s, next_m(s, i + 2) + 1)
    } else {
        seq![s[i]] + visible_from(s, i + 1)
    }
}

/// The texts of `spans`, one after another.
pub open spec fn spans_text(spans: Seq<(Seq<char>, SpanStyle)>) -> Seq<char>
    decreases spans.len(),
{
    if spans.len() == 0 {
        Seq::empty()
    } else {
        spans_text(spans.drop_last()) + spans.last().0
    }
}

proof fn lemma_spans_text_append(a: Seq<(Seq<char>, SpanStyle)>, b: Seq<(Seq<char>, SpanStyle)>)
    ensures
        spans_text(a + b) == spans_text(a) + spans_text(b),
    decreases b.len(),
{
    if b.len() == 0 {
        assert(a + b =~= a);
        assert(spans_text(a) + spans_text(b) =~= spans_text(a));
    } else {
        lemma_spans_text_append(a, b.drop_last());
        assert((a + b).drop_last() =~= a + b.drop_last());
        assert(spans_text(a + b) =~= spans_text(a) + spans_text(b));
    }
}

proof fn lemma_flush_text(buf: Seq<char>, style: SpanStyle)
    ensures
        spans_text(flush(buf, style)) == buf,
{
    let f = flush(buf, style);
    if buf.len() > 0 {
        assert(f.drop_last() =~= Seq::<(Seq<char>, SpanStyle)>::empty());
        assert(spans_text(f.drop_last()) == Seq::<char>::empty());
        assert(Seq::<char>::empty() + buf =~= buf);
    } else {
        assert(buf =~= Seq::<char>::empty());
    }
}

proof fn lemma_spans_text_from(s: Seq<char>, i: int, style: SpanStyle, buf: Seq<char>)
    requires
        0 <= i,
    ensures
        spans_text(line_spans(s, i, style, buf)) == buf + visible_from(s, i),
    decreases s.len() + 1 - i,
{
    if i >= s.len() {
        lemma_flush_text(buf, style);
        assert(buf + visible_from(s, i) =~= buf);
    } else if s[i] == '\x1b' && i + 1 < s.len() && s[i + 1] == '[' {
        lemma_next_m(s, i + 2);
        let m = next_m(s, i + 2);
        let st = sgr_apply(style, split_on(s.subrange(i + 2, m), ';'));
        lemma_spans_text_from(s, m + 1, st, Seq::empty());
        lemma_spans_text_append(flush(buf, style), line_spans(s, m + 1, st, Seq::empty()));
        lemma_flush_text(buf, style);
        assert(Seq::<char>::empty() + visible_from(s, m + 1) =~= visible_from(s, m + 1));
    } else {
        lemma_spans_text_from(s, i + 1, style, buf.push(s[i]));
        assert(buf.push(s[i]) + visible_from(s, i + 1) =~= buf + (seq![s[i]] + visible_from(s, i + 1)));
    }
}

/// The spans of a line hold exactly its visible text, in order: the line
/// without its SGR sequences. So the width of the art is kept.
pub proof fn law_spans_keep_visible_text(s: Seq<char>)
    ensures
        spans_text(line_spans(s, 0, plain_style(), Seq::empty())) == visible_from(s, 0),
{
    lemma_spans_text_from(s, 0, plain_style(), Seq::empty());
    assert(Seq::<char>::empty() + visible_from(s, 0) =~= visible_from(s, 0));
}

/// The eight standard colours in ANSI order.
pub open spec fn ansi_standard_order() -> Seq<AnsiColor> {
    seq![
        AnsiColor::Black,
        AnsiColor::Red,
        AnsiColor::Green,
        AnsiColor::Yellow,
        AnsiColor::Blue,
        AnsiColor::Magenta,
        AnsiColor::Cyan,
        AnsiColor::Gray,
    ]
}

/// The eight bright colours in ANSI order.
pub open spec fn ansi_bright_order() -> Seq<AnsiColor> {
    seq![
        AnsiColor::DarkGray,
        AnsiColor::LightRed,
        AnsiColor::LightGreen,
        AnsiColor::LightYellow,
        AnsiColor::LightBlue,
        AnsiColor::LightMagenta,
        AnsiColor::LightCyan,
        AnsiColor::White,
    ]
}

/// SGR 30–37 set the foreground and 40–47 the background to the standard
/// colours in ANSI order (black, red, green, yellow, blue, magenta, cyan,
/// grey); 90–97 and 100–107 do the same with the bright colours (dark
/// grey, light red, light green, light yellow, light blue, light magenta,
/// light cyan, white). Each keeps the other colour as it was.
pub proof fn law_sgr_palette_follows_ansi_order(style: SpanStyle, n: nat)
    ensures
        30 <= n <= 37 ==> sgr_step(style, n) == (SpanStyle { fg: Some(ansi_standard_order()[n - 30]), ..style }),
        40 <= n <= 47 ==> sgr_step(style, n) == (SpanStyle { bg: Some(ansi_standard_order()[n - 40]), ..style }),
        90 <= n <= 97 ==> sgr_step(style, n) == (SpanStyle { fg: Some(ansi_bright_order()[n - 90]), ..style }),
        100 <= n <= 107 ==> sgr_step(style, n) == (SpanStyle { bg: Some(ansi_bright_order()[n - 100]), ..style }),
        n == 0 ==> sgr_step(style, n) == plain_style(),
{
}

} // verus!
