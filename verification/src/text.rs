//! Character-level helpers on `String`/`str` with exact specifications.

use vstd::prelude::*;

verus! {

/// `String::push` appends one character.
pub assume_specification[ String::push ](s: &mut String, ch: char)
    ensures
        final(s)@ == old(s)@.push(ch),
;

/// The characters of `s`, in order.
pub fn chars_of(s: &str) -> (res: Vec<char>)
    ensures
        res@ == s@,
{
    let mut res: Vec<char> = Vec::new();
    for c in it: s.chars()
        invariant
            res@ == it.seq().take(it.index() as int),
    {
        res.push(c);
    }
    res
}

} // verus!

verus! {

/// The views of a sequence of strings.
pub open spec fn views(v: Seq<String>) -> Seq<Seq<char>> {
    v.map_values(|s: String| s@)
}

/// Lexicographic order on character sequences by code point, shorter
/// prefix first: the order of `Ord for str` (which compares UTF-8 bytes,
/// and UTF-8 preserves code-point order).
pub open spec fn lex_le(a: Seq<char>, b: Seq<char>) -> bool
    decreases a.len(),
{
    if a.len() == 0 {
        true
    } else if b.len() == 0 {
        false
    } else if a[0] != b[0] {
        (a[0] as u32) < (b[0] as u32)
    } else {
        lex_le(a.drop_first(), b.drop_first())
    }
}

/// Decides [`lex_le`].
pub fn lex_le_chars(a: &Vec<char>, b: &Vec<char>) -> (res: bool)
    ensures
        res == lex_le(a@, b@),
{
    let mut i: usize = 0;
    assert(a@.skip(0) =~= a@);
    assert(b@.skip(0) =~= b@);
    while i < a.len() && i < b.len() && a[i] == b[i]
        invariant
            i <= a@.len(),
            i <= b@.len(),
            lex_le(a@, b@) == lex_le(a@.skip(i as int), b@.skip(i as int)),
        decreases a@.len() - i,
    {
        assert(a@.skip(i as int).drop_first() =~= a@.skip(i + 1));
        assert(b@.skip(i as int).drop_first() =~= b@.skip(i + 1));
        i = i + 1;
    }
    if i == a.len() {
        true
    } else if i == b.len() {
        false
    } else {
        (a[i] as u32) < (b[i] as u32)
    }
}

/// Whether `name` is among `names`.
pub fn contains_string(names: &Vec<String>, name: &String) -> (res: bool)
    ensures
        res == views(names@).contains(name@),
{
    let mut i: usize = 0;
    while i < names.len()
        invariant
            i <= names@.len(),
            forall|j: int| 0 <= j < i ==> names@[j]@ != name@,
        decreases names@.len() - i,
    {
        if names[i] == *name {
            assert(views(names@)[i as int] == name@);
            return true;
        }
        i = i + 1;
    }
    assert forall|j: int| 0 <= j < views(names@).len() implies views(names@)[j] != name@ by {
        assert(views(names@)[j] == names@[j]@);
    }
    false
}

} // verus!

verus! {

/// The string holding the characters `cs`.
pub fn string_of(cs: &Vec<char>) -> (res: String)
    ensures
        res@ == cs@,
{
    let mut res = String::new();
    let mut i: usize = 0;
    while i < cs.len()
        invariant
            i <= cs@.len(),
            res@ == cs@.take(i as int),
        decreases cs@.len() - i,
    {
        res.push(cs[i]);
        assert(cs@.take(i + 1) =~= cs@.take(i as int).push(cs@[i as int]));
        i = i + 1;
    }
    assert(cs@.take(i as int) =~= cs@);
    res
}

} // verus!

verus! {

/// `line` without one trailing carriage return.
pub open spec fn strip_cr(line: Seq<char>) -> Seq<char> {
    if line.len() > 0 && line.last() == '\r' {
        line.drop_last()
    } else {
        line
    }
}

/// Index of the first line feed in `s`.
pub open spec fn first_newline(s: Seq<char>) -> Option<nat>
    decreases s.len(),
{
    if s.len() == 0 {
        None
    } else if s[0] == '\n' {
        Some(0)
    } else {
        match first_newline(s.drop_first()) {
            Some(k) => Some(k + 1),
            None => None,
        }
    }
}

/// The lines of `s` as `str::lines` gives them: split at each `\n`, a
/// `\r` right before a `\n` dropped, and no empty last line after a final
/// line ending.
pub open spec fn split_lines(s: Seq<char>) -> Seq<Seq<char>>
    decreases s.len(),
{
    if s.len() == 0 {
        Seq::empty()
    } else {
        match first_newline(s) {
            None => seq![s],
            Some(k) => if k < s.len() {
                seq![strip_cr(s.take(k as int))] + split_lines(s.skip((k + 1) as int))
            } else {
                Seq::empty()
            },
        }
    }
}

proof fn lemma_first_newline_at(s: Seq<char>, k: int)
    requires
        0 <= k < s.len(),
        s[k] == '\n',
        forall|j: int| 0 <= j < k ==> s[j] != '\n',
    ensures
        first_newline(s) == Some(k as nat),
    decreases k,
{
    if k > 0 {
        lemma_first_newline_at(s.drop_first(), k - 1);
    }
}

proof fn lemma_no_newline(s: Seq<char>)
    requires
        forall|j: int| 0 <= j < s.len() ==> s[j] != '\n',
    ensures
        first_newline(s) is None,
    decreases s.len(),
{
    if s.len() > 0 {
        lemma_no_newline(s.drop_first());
    }
}

fn strip_cr_exec(line: Vec<char>) -> (res: Vec<char>)
    ensures
        res@ == strip_cr(line@),
{
    let mut line = line;
    if line.len() > 0 && line[line.len() - 1] == '\r' {
        line.pop();
    }
    line
}

/// The lines of `s`, as `str::lines` gives them.
pub fn lines_of(s: &str) -> (res: Vec<String>)
    ensures
        views(res@) == split_lines(s@),
{
    let cs = chars_of(s);
    let ghost all = s@;
    let mut res: Vec<String> = Vec::new();
    let mut cur: Vec<char> = Vec::new();
    let mut start: usize = 0;
    let mut i: usize = 0;
    assert(all.skip(0) =~= all);
    while i < cs.len()
        invariant
            cs@ == all,
            start <= i <= all.len(),
            cur@ == all.subrange(start as int, i as int),
            forall|j: int| start <= j < i ==> all[j] != '\n',
            split_lines(all) == views(res@) + split_lines(all.skip(start as int)),
        decreases all.len() - i,
    {
        let c = cs[i];
        if c == '\n' {
            let ghost rest = all.skip(start as int);
            proof {
                assert forall|j: int| 0 <= j < i - start implies rest[j] != '\n' by {
                    assert(rest[j] == all[start + j]);
                }
                lemma_first_newline_at(rest, i - start);
                assert(rest.take(i - start) =~= cur@);
                assert(rest.skip(i - start + 1) =~= all.skip(i + 1));
            }
            let ghost before = res@;
            let line = strip_cr_exec(cur);
            res.push(string_of(&line));
            proof {
                assert(views(res@) =~= views(before).push(line@));
                assert(split_lines(rest) == seq![strip_cr(cur@)] + split_lines(all.skip(i + 1)));
                assert(views(res@) + split_lines(all.skip(i + 1)) =~= views(before) + split_lines(rest));
            }
            cur = Vec::new();
            start = i + 1;
        } else {
            cur.push(c);
        }
        i = i + 1;
    }
    let ghost rest = all.skip(start as int);
    proof {
        assert forall|j: int| 0 <= j < rest.len() implies rest[j] != '\n' by {
            assert(rest[j] == all[start + j]);
        }
        lemma_no_newline(rest);
        assert(rest =~= cur@);
    }
    if cur.len() > 0 {
        let ghost before = res@;
        res.push(string_of(&cur));
        proof {
            assert(views(res@) =~= views(before).push(cur@));
            assert(views(res@) =~= views(before) + split_lines(rest));
        }
    } else {
        proof {
            assert(views(res@) =~= views(res@) + split_lines(rest));
        }
    }
    res
}

/// Decimal digits of `n`, most significant first, without leading zeros
/// ("0" for zero).
pub open spec fn decimal(n: nat) -> Seq<char>
    decreases n,
{
    if n < 10 {
        seq![digit_char(n)]
    } else {
        decimal(n / 10).push(digit_char(n % 10))
    }
}

pub open spec fn digit_char(d: nat) -> char {
    if d == 0 { '0' } else if d == 1 { '1' } else if d == 2 { '2' } else if d == 3 { '3' } else if d == 4 { '4' }
    else if d == 5 { '5' } else if d == 6 { '6' } else if d == 7 { '7' } else if d == 8 { '8' } else { '9' }
}

fn digit(d: usize) -> (c: char)
    requires
        d < 10,
    ensures
        c == digit_char(d as nat),
{
    if d == 0 { '0' } else if d == 1 { '1' } else if d == 2 { '2' } else if d == 3 { '3' } else if d == 4 { '4' }
    else if d == 5 { '5' } else if d == 6 { '6' } else if d == 7 { '7' } else if d == 8 { '8' } else { '9' }
}

/// `n` written in decimal, as `Display for usize` writes it.
pub fn decimal_string(n: usize) -> (res: String)
    ensures
        res@ == decimal(n as nat),
    decreases n,
{
    if n < 10 {
        let mut s = String::new();
        s.push(digit(n));
        s
    } else {
        let mut s = decimal_string(n / 10);
        s.push(digit(n % 10));
        s
    }
}

/// "true" or "false", as `Display for bool` writes it.
pub open spec fn bool_text(b: bool) -> Seq<char> {
    if b {
        "true"@
    } else {
        "false"@
    }
}

/// `b` as `Display for bool` writes it.
pub fn bool_string(b: bool) -> (res: String)
    ensures
        res@ == bool_text(b),
{
    if b {
        String::from_str("true")
    } else {
        String::from_str("false")
    }
}

/// The concatenation of `parts`.
pub open spec fn concat_all(parts: Seq<Seq<char>>) -> Seq<char>
    decreases parts.len(),
{
    if parts.len() == 0 {
        Seq::empty()
    } else {
        concat_all(parts.drop_last()) + parts.last()
    }
}

} // verus!

verus! {

/// `String::pop` removes and returns the last character, if any.
pub assume_specification[ String::pop ](s: &mut String) -> (res: Option<char>)
    ensures
        old(s)@.len() == 0 ==> res is None && final(s)@ == old(s)@,
        old(s)@.len() > 0 ==> res == Some(old(s)@.last()) && final(s)@ == old(s)@.drop_last(),
;

/// Whether `c` has the Unicode `White_Space` property: tab, line feed,
/// vertical tab, form feed, carriage return, space, next line, no-break
/// space, ogham space mark, the spaces U+2000 to U+200A, line separator,
/// paragraph separator, narrow no-break space, medium mathematical space
/// and ideographic space.
pub open spec fn white_space(c: char) -> bool {
    let u = c as u32;
    ||| 0x09 <= u <= 0x0D
    ||| u == 0x20
    ||| u == 0x85
    ||| u == 0xA0
    ||| u == 0x1680
    ||| 0x2000 <= u <= 0x200A
    ||| u == 0x2028
    ||| u == 0x2029
    ||| u == 0x202F
    ||| u == 0x205F
    ||| u == 0x3000
}

/// `char::is_whitespace`: whether `c` has the `White_Space` property.
#[verifier::external_body]
fn is_white_space(c: char) -> (res: bool)
    ensures
        res == white_space(c),
{
    c.is_whitespace()
}

/// `s` without its leading white space.
pub open spec fn trim_start(s: Seq<char>) -> Seq<char>
    decreases s.len(),
{
    if s.len() > 0 && white_space(s[0]) {
        trim_start(s.drop_first())
    } else {
        s
    }
}

/// `s` without its trailing white space.
pub open spec fn trim_end(s: Seq<char>) -> Seq<char>
    decreases s.len(),
{
    if s.len() > 0 && white_space(s.last()) {
        trim_end(s.drop_last())
    } else {
        s
    }
}

/// `s` without leading and trailing white space, as `str::trim` gives it.
pub open spec fn trimmed(s: Seq<char>) -> Seq<char> {
    trim_end(trim_start(s))
}

/// `s` without leading and trailing white space.
pub fn trim_string(s: &str) -> (res: String)
    ensures
        res@ == trimmed(s@),
{
    let cs = chars_of(s);
    let n = cs.len();
    let mut i: usize = 0;
    assert(cs@.skip(0) =~= cs@);
    while i < n && is_white_space(cs[i])
        invariant
            n == cs@.len(),
            i <= n,
            trim_start(cs@) == trim_start(cs@.skip(i as int)),
        decreases n - i,
    {
        assert(cs@.skip(i as int).drop_first() =~= cs@.skip(i + 1));
        i = i + 1;
    }
    let ghost start = cs@.skip(i as int);
    assert(trim_start(cs@) == start);
    let mut j: usize = n;
    assert(cs@.subrange(i as int, n as int) =~= start);
    while j > i && is_white_space(cs[j - 1])
        invariant
            n == cs@.len(),
            i <= j <= n,
            start == cs@.skip(i as int),
            trim_end(start) == trim_end(cs@.subrange(i as int, j as int)),
        decreases j - i,
    {
        assert(cs@.subrange(i as int, j as int).drop_last() =~= cs@.subrange(i as int, j - 1));
        j = j - 1;
    }
    let mut res = String::new();
    let mut k: usize = i;
    while k < j
        invariant
            i <= k <= j <= n,
            n == cs@.len(),
            res@ == cs@.subrange(i as int, k as int),
        decreases j - k,
    {
        res.push(cs[k]);
        assert(cs@.subrange(i as int, k + 1) =~= cs@.subrange(i as int, k as int).push(cs@[k as int]));
        k = k + 1;
    }
    res
}

/// Whether `c` is an ASCII decimal digit.
pub open spec fn is_digit(c: char) -> bool {
    '0' <= c && c <= '9'
}

/// The value of a decimal digit character.
pub open spec fn digit_value(c: char) -> nat {
    (c as u32 - '0' as u32) as nat
}

/// The value of a string of decimal digits.
pub open spec fn decimal_value(ds: Seq<char>) -> nat
    decreases ds.len(),
{
    if ds.len() == 0 {
        0
    } else {
        decimal_value(ds.drop_last()) * 10 + digit_value(ds.last())
    }
}

/// The pieces of `s` between occurrences of `sep`, as `str::split` gives
/// them (empty pieces included; an empty `s` is one empty piece).
pub open spec fn split_on(s: Seq<char>, sep: char) -> Seq<Seq<char>>
    decreases s.len(),
{
    if s.len() == 0 {
        seq![Seq::empty()]
    } else {
        let prev = split_on(s.drop_last(), sep);
        if s.last() == sep {
            prev.push(Seq::empty())
        } else {
            prev.update(prev.len() - 1, prev.last().push(s.last()))
        }
    }
}

/// The pieces of `code` between occurrences of `sep`.
pub fn split_chars(code: &Vec<char>, sep: char) -> (res: Vec<Vec<char>>)
    ensures
        res@.map_values(|p: Vec<char>| p@) == split_on(code@, sep),
{
    let mut res: Vec<Vec<char>> = Vec::new();
    res.push(Vec::new());
    let mut i: usize = 0;
    assert(code@.take(0) =~= Seq::<char>::empty());
    assert(res@.map_values(|p: Vec<char>| p@) =~= split_on(code@.take(0), sep));
    while i < code.len()
        invariant
            i <= code@.len(),
            res@.len() > 0,
            res@.map_values(|p: Vec<char>| p@) == split_on(code@.take(i as int), sep),
        decreases code@.len() - i,
    {
        let c = code[i];
        assert(code@.take(i + 1).drop_last() =~= code@.take(i as int));
        if c == sep {
            let ghost before = res@;
            res.push(Vec::new());
            assert(res@.map_values(|p: Vec<char>| p@) =~= before.map_values(|p: Vec<char>| p@).push(
                Seq::empty(),
            ));
        } else {
            let ghost before = res@;
            let last = res.len() - 1;
            let mut piece = res.pop().unwrap();
            piece.push(c);
            res.push(piece);
            assert(res@.map_values(|p: Vec<char>| p@) =~= before.map_values(|p: Vec<char>| p@).update(
                last as int,
                before[last as int]@.push(c),
            ));
        }
        i = i + 1;
    }
    assert(code@.take(i as int) =~= code@);
    res
}

/// The index of the first `c` in `s` at or after `j`, or the length of
/// `s` if there is none.
pub open spec fn next_index(s: Seq<char>, c: char, j: int) -> int
    decreases s.len() - j,
{
    if j >= s.len() {
        s.len() as int
    } else if s[j] == c {
        j
    } else {
        next_index(s, c, j + 1)
    }
}

/// The index of the first `c` among the first `end` characters of `cs`,
/// or `end` if there is none.
pub fn find_char(cs: &Vec<char>, c: char, end: usize) -> (res: usize)
    requires
        end <= cs@.len(),
    ensures
        res == next_index(cs@.take(end as int), c, 0),
        res <= end,
{
    let ghost t = cs@.take(end as int);
    let mut i: usize = 0;
    while i < end && cs[i] != c
        invariant
            i <= end <= cs@.len(),
            t == cs@.take(end as int),
            next_index(t, c, 0) == next_index(t, c, i as int),
        decreases end - i,
    {
        assert(t[i as int] == cs@[i as int]);
        i = i + 1;
    }
    if i < end {
        assert(t[i as int] == c);
    }
    i
}

/// `lex_le` relates any two sequences one way or the other.
pub proof fn lemma_lex_le_total(a: Seq<char>, b: Seq<char>)
    ensures
        lex_le(a, b) || lex_le(b, a),
    decreases a.len(),
{
    if a.len() > 0 && b.len() > 0 {
        if a[0] == b[0] {
            lemma_lex_le_total(a.drop_first(), b.drop_first());
        } else {
            vstd::utf8::char_u32_cast(a[0], a[0] as u32);
            vstd::utf8::char_u32_cast(b[0], b[0] as u32);
        }
    }
}

/// `lex_le` is transitive.
pub proof fn lemma_lex_le_transitive(a: Seq<char>, b: Seq<char>, c: Seq<char>)
    requires
        lex_le(a, b),
        lex_le(b, c),
    ensures
        lex_le(a, c),
    decreases a.len(),
{
    if a.len() > 0 && b.len() > 0 && c.len() > 0 && a[0] == b[0] && b[0] == c[0] {
        lemma_lex_le_transitive(a.drop_first(), b.drop_first(), c.drop_first());
    }
}

/// `lex_le` is reflexive.
pub proof fn lemma_lex_le_reflexive(a: Seq<char>)
    ensures
        lex_le(a, a),
    decreases a.len(),
{
    if a.len() > 0 {
        lemma_lex_le_reflexive(a.drop_first());
    }
}

/// `lex_le` both ways holds only of equal sequences.
pub proof fn lemma_lex_le_antisymmetric(a: Seq<char>, b: Seq<char>)
    requires
        lex_le(a, b),
        lex_le(b, a),
    ensures
        a == b,
    decreases a.len(),
{
    if a.len() > 0 && b.len() > 0 {
        if a[0] == b[0] {
            lemma_lex_le_antisymmetric(a.drop_first(), b.drop_first());
            assert(a =~= seq![a[0]] + a.drop_first());
            assert(b =~= seq![b[0]] + b.drop_first());
        } else {
            vstd::utf8::char_u32_cast(a[0], a[0] as u32);
            vstd::utf8::char_u32_cast(b[0], b[0] as u32);
        }
    } else {
        assert(a =~= b);
    }
}

} // verus!
