//! Styled text: colors, styles, spans and lines, and the string helpers that
//! the rest of the library builds on.
use vstd::prelude::*;
use vstd::string::*;

verus! {

/// A terminal color.
#[derive(Clone, Copy, Debug, PartialEq, Eq, Structural)]
pub enum Color {
    Reset,
    Black,
    Red,
    Green,
    Yellow,
    Blue,
    Magenta,
    Cyan,
    Gray,
    DarkGray,
    LightRed,
    LightGreen,
    LightYellow,
    LightBlue,
    LightMagenta,
    LightCyan,
    White,
    Rgb(u8, u8, u8),
    Indexed(u8),
}

/// A set of text attributes.
#[derive(Clone, Copy, Debug, PartialEq, Eq, Structural)]
pub struct Modifier {
    pub bold: bool,
    pub dim: bool,
    pub italic: bool,
    pub underlined: bool,
    pub reversed: bool,
}

impl Modifier {
    pub open spec fn none() -> Modifier {
        Modifier { bold: false, dim: false, italic: false, underlined: false, reversed: false }
    }

    pub open spec fn union(self, other: Modifier) -> Modifier {
        Modifier {
            bold: self.bold || other.bold,
            dim: self.dim || other.dim,
            italic: self.italic || other.italic,
            underlined: self.underlined || other.underlined,
            reversed: self.reversed || other.reversed,
        }
    }

    pub open spec fn minus(self, other: Modifier) -> Modifier {
        Modifier {
            bold: self.bold && !other.bold,
            dim: self.dim && !other.dim,
            italic: self.italic && !other.italic,
            underlined: self.underlined && !other.underlined,
            reversed: self.reversed && !other.reversed,
        }
    }

    /// The set without any attribute.
    pub fn empty() -> (r: Modifier)
        ensures
            r == Modifier::none(),
    {
        Modifier { bold: false, dim: false, italic: false, underlined: false, reversed: false }
    }

    /// The attributes of `self` and of `other`.
    pub fn insert(self, other: Modifier) -> (r: Modifier)
        ensures
            r == self.union(other),
    {
        Modifier {
            bold: self.bold || other.bold,
            dim: self.dim || other.dim,
            italic: self.italic || other.italic,
            underlined: self.underlined || other.underlined,
            reversed: self.reversed || other.reversed,
        }
    }

    /// The attributes of `self` that are not in `other`.
    pub fn remove(self, other: Modifier) -> (r: Modifier)
        ensures
            r == self.minus(other),
    {
        Modifier {
            bold: self.bold && !other.bold,
            dim: self.dim && !other.dim,
            italic: self.italic && !other.italic,
            underlined: self.underlined && !other.underlined,
            reversed: self.reversed && !other.reversed,
        }
    }
}

/// An incremental style: a color that is `None` leaves what is below it.
#[derive(Clone, Copy, Debug, PartialEq, Eq, Structural)]
pub struct Style {
    pub fg: Option<Color>,
    pub bg: Option<Color>,
    pub add_modifier: Modifier,
    pub sub_modifier: Modifier,
}

impl Style {
    pub open spec fn plain() -> Style {
        Style { fg: None, bg: None, add_modifier: Modifier::none(), sub_modifier: Modifier::none() }
    }

    pub open spec fn with_fg(self, c: Color) -> Style {
        Style { fg: Some(c), ..self }
    }

    pub open spec fn with_bg(self, c: Color) -> Style {
        Style { bg: Some(c), ..self }
    }

    pub open spec fn with_modifier(self, m: Modifier) -> Style {
        Style {
            add_modifier: self.add_modifier.union(m),
            sub_modifier: self.sub_modifier.minus(m),
            ..self
        }
    }

    pub open spec fn without_modifier(self, m: Modifier) -> Style {
        Style {
            add_modifier: self.add_modifier.minus(m),
            sub_modifier: self.sub_modifier.union(m),
            ..self
        }
    }

    /// The style that changes nothing.
    pub fn new() -> (r: Style)
        ensures
            r == Style::plain(),
    {
        Style {
            fg: None,
            bg: None,
            add_modifier: Modifier::empty(),
            sub_modifier: Modifier::empty(),
        }
    }

    /// Set the foreground color.
    pub fn fg(self, c: Color) -> (r: Style)
        ensures
            r == self.with_fg(c),
    {
        Style { fg: Some(c), bg: self.bg, add_modifier: self.add_modifier, sub_modifier: self.sub_modifier }
    }

    /// Set the background color.
    pub fn bg(self, c: Color) -> (r: Style)
        ensures
            r == self.with_bg(c),
    {
        Style { fg: self.fg, bg: Some(c), add_modifier: self.add_modifier, sub_modifier: self.sub_modifier }
    }

    /// Turn attributes on.
    pub fn add_modifier(self, m: Modifier) -> (r: Style)
        ensures
            r == self.with_modifier(m),
    {
        Style {
            fg: self.fg,
            bg: self.bg,
            add_modifier: self.add_modifier.insert(m),
            sub_modifier: self.sub_modifier.remove(m),
        }
    }

    /// Turn attributes off.
    pub fn remove_modifier(self, m: Modifier) -> (r: Style)
        ensures
            r == self.without_modifier(m),
    {
        Style {
            fg: self.fg,
            bg: self.bg,
            add_modifier: self.add_modifier.remove(m),
            sub_modifier: self.sub_modifier.insert(m),
        }
    }
}

impl Default for Style {
    fn default() -> (r: Style)
        ensures
            r == Style::plain(),
    {
        Style::new()
    }
}

/// A run of text in one style.
#[derive(Debug, PartialEq, Eq)]
pub struct Span {
    pub content: String,
    pub style: Style,
}

/// What a [`Span`] holds.
#[verifier::ext_equal]
pub struct SpanView {
    pub content: Seq<char>,
    pub style: Style,
}

impl View for Span {
    type V = SpanView;

    open spec fn view(&self) -> SpanView {
        SpanView { content: self.content@, style: self.style }
    }
}

impl Span {
    /// A span with the given content and style.
    pub fn styled(content: String, style: Style) -> (r: Span)
        ensures
            r@ == (SpanView { content: content@, style }),
            r.content == content,
            r.style == style,
    {
        Span { content, style }
    }
}

impl Clone for Span {
    fn clone(&self) -> (r: Span)
        ensures
            r@ == self@,
    {
        Span { content: self.content.clone(), style: self.style }
    }
}

/// One line of styled text.
#[derive(Debug, PartialEq, Eq)]
pub struct Line {
    pub spans: Vec<Span>,
}

impl View for Line {
    type V = Seq<SpanView>;

    open spec fn view(&self) -> Seq<SpanView> {
        views(self.spans@)
    }
}

impl Clone for Line {
    fn clone(&self) -> (r: Line)
        ensures
            r@ == self@,
    {
        let spans = clone_spans(&self.spans);
        Line { spans }
    }
}

/// A copy of a list of spans.
pub fn clone_spans(spans: &Vec<Span>) -> (r: Vec<Span>)
    ensures
        views(r@) == views(spans@),
{
    let mut out: Vec<Span> = Vec::new();
    for i in 0..spans.len()
        invariant
            out@.len() == i,
            forall|j: int| 0 <= j < i ==> (#[trigger] out@[j])@ == spans@[j]@,
    {
        out.push(spans[i].clone());
    }
    assert(views(out@) =~= views(spans@));
    out
}

/// A copy of a list of lines.
pub fn clone_lines(lines: &Vec<Line>) -> (r: Vec<Line>)
    ensures
        views(r@) == views(lines@),
{
    let mut out: Vec<Line> = Vec::new();
    for i in 0..lines.len()
        invariant
            out@.len() == i,
            forall|j: int| 0 <= j < i ==> (#[trigger] out@[j])@ == lines@[j]@,
    {
        out.push(lines[i].clone());
    }
    assert(views(out@) =~= views(lines@));
    out
}

/// The views of the elements of a sequence.
pub open spec fn views<T: View>(s: Seq<T>) -> Seq<T::V> {
    Seq::new(s.len(), |i: int| s[i]@)
}

/// The text of a line: the contents of its spans, joined.
pub open spec fn line_text(line: Seq<SpanView>) -> Seq<char>
    decreases line.len(),
{
    if line.len() == 0 {
        Seq::empty()
    } else {
        line_text(line.drop_last()) + line.last().content
    }
}

/// The characters of a piece of text, each with the style it is shown in.
pub open spec fn styled_chars(text: Seq<char>, style: Style) -> Seq<(char, Style)> {
    Seq::new(text.len(), |i: int| (text[i], style))
}

/// The characters of a line, each with the style it is shown in.
pub open spec fn glyphs(line: Seq<SpanView>) -> Seq<(char, Style)>
    decreases line.len(),
{
    if line.len() == 0 {
        Seq::empty()
    } else {
        glyphs(line.drop_last()) + styled_chars(line.last().content, line.last().style)
    }
}

/// The styled characters of several lines, one after the other.
pub open spec fn all_glyphs(lines: Seq<Seq<SpanView>>) -> Seq<(char, Style)>
    decreases lines.len(),
{
    if lines.len() == 0 {
        Seq::empty()
    } else {
        all_glyphs(lines.drop_last()) + glyphs(lines.last())
    }
}

pub proof fn lemma_glyphs_push(line: Seq<SpanView>, span: SpanView)
    ensures
        glyphs(line.push(span)) == glyphs(line) + styled_chars(span.content, span.style),
{
    assert(line.push(span).drop_last() =~= line);
}

pub proof fn lemma_all_glyphs_push(lines: Seq<Seq<SpanView>>, line: Seq<SpanView>)
    ensures
        all_glyphs(lines.push(line)) == all_glyphs(lines) + glyphs(line),
{
    assert(lines.push(line).drop_last() =~= lines);
}

pub proof fn lemma_views_push<T: View>(s: Seq<T>, t: T)
    ensures
        views(s.push(t)) == views(s).push(t@),
{
    assert(views(s.push(t)) =~= views(s).push(t@));
}

pub proof fn lemma_line_text_add(a: Seq<SpanView>, b: Seq<SpanView>)
    ensures
        line_text(a + b) == line_text(a) + line_text(b),
    decreases b.len(),
{
    if b.len() == 0 {
        assert(a + b =~= a);
        assert(line_text(a) + line_text(b) =~= line_text(a));
    } else {
        assert((a + b).drop_last() =~= a + b.drop_last());
        lemma_line_text_add(a, b.drop_last());
        assert((a + b).last() == b.last());
        assert(line_text(a + b) =~= line_text(a) + line_text(b));
    }
}

/// The pieces of `s` between the occurrences of `sep`.
pub open spec fn split(s: Seq<char>, sep: char) -> Seq<Seq<char>>
    decreases s.len(),
{
    if s.len() == 0 {
        seq![Seq::<char>::empty()]
    } else {
        let rest = split(s.drop_last(), sep);
        if s.last() == sep {
            rest.push(Seq::empty())
        } else {
            rest.drop_last().push(rest.last().push(s.last()))
        }
    }
}

pub proof fn lemma_split_nonempty(s: Seq<char>, sep: char)
    ensures
        split(s, sep).len() > 0,
    decreases s.len(),
{
    if s.len() > 0 {
        lemma_split_nonempty(s.drop_last(), sep);
    }
}

/// Pieces of text with `sep` between them.
pub open spec fn joined(parts: Seq<Seq<char>>, sep: Seq<char>) -> Seq<char>
    decreases parts.len(),
{
    if parts.len() == 0 {
        Seq::empty()
    } else if parts.len() == 1 {
        parts[0]
    } else {
        joined(parts.drop_last(), sep) + sep + parts.last()
    }
}

pub proof fn lemma_joined_push(parts: Seq<Seq<char>>, sep: Seq<char>, part: Seq<char>)
    ensures
        joined(parts.push(part), sep) == if parts.len() == 0 {
            part
        } else {
            joined(parts, sep) + sep + part
        },
{
    assert(parts.push(part).drop_last() =~= parts);
}

/// Texts, one after the other.
pub open spec fn concat(parts: Seq<Seq<char>>) -> Seq<char>
    decreases parts.len(),
{
    if parts.len() == 0 {
        Seq::empty()
    } else {
        concat(parts.drop_last()) + parts.last()
    }
}

/// Whether `c` is one of the ten ASCII digits.
pub open spec fn is_digit(c: char) -> bool {
    '0' <= c && c <= '9'
}

pub open spec fn all_digits(s: Seq<char>) -> bool {
    forall|i: int| 0 <= i < s.len() ==> is_digit(#[trigger] s[i])
}

/// The number that a sequence of decimal digits stands for.
pub open spec fn decimal(s: Seq<char>) -> nat
    decreases s.len(),
{
    if s.len() == 0 {
        0
    } else {
        (decimal(s.drop_last()) * 10 + (s.last() as int - '0' as int)) as nat
    }
}

/// What a sequence of digits parses to as an unsigned 32-bit number.
pub open spec fn parsed_u32(s: Seq<char>) -> Option<u32> {
    if s.len() > 0 && all_digits(s) && decimal(s) <= u32::MAX {
        Some(decimal(s) as u32)
    } else {
        None
    }
}

proof fn lemma_decimal_prefix(s: Seq<char>, n: int)
    requires
        all_digits(s),
        0 <= n <= s.len(),
    ensures
        decimal(s.take(n)) <= decimal(s),
    decreases s.len() - n,
{
    if n == s.len() {
        assert(s.take(n) =~= s);
    } else {
        lemma_decimal_prefix(s, n + 1);
        assert(s.take(n + 1).drop_last() =~= s.take(n));
    }
}

/// Parse the characters from `from` to before `to` as a number without sign.
pub fn parse_u32(chars: &Vec<char>, from: usize, to: usize) -> (r: Option<u32>)
    requires
        from <= to <= chars@.len(),
    ensures
        r == parsed_u32(chars@.subrange(from as int, to as int)),
{
    let ghost s = chars@.subrange(from as int, to as int);
    if from == to {
        return None;
    }
    let mut value: u64 = 0;
    let mut i: usize = from;
    while i < to
        invariant
            from <= i <= to <= chars@.len(),
            s == chars@.subrange(from as int, to as int),
            forall|j: int| 0 <= j < i - from ==> is_digit(#[trigger] s[j]),
            value == decimal(s.take(i - from)),
            value <= u32::MAX,
        decreases to - i,
    {
        let c = chars[i];
        assert(s[i - from] == c);
        if c < '0' || c > '9' {
            return None;
        }
        assert(s.take(i - from + 1).drop_last() =~= s.take(i - from));
        value = value * 10 + (c as u64 - '0' as u64);
        assert(value == decimal(s.take(i - from + 1)));
        if value > u32::MAX as u64 {
            proof {
                if all_digits(s) {
                    lemma_decimal_prefix(s, i - from + 1);
                }
            }
            return None;
        }
        i += 1;
    }
    assert(s.take(to - from) =~= s);
    Some(value as u32)
}

/// The decimal digits of a number, without leading zeros.
pub open spec fn digits(n: nat) -> Seq<char>
    decreases n,
{
    if n < 10 {
        seq![('0' as int + n) as char]
    } else {
        digits(n / 10).push(('0' as int + n % 10) as char)
    }
}

/// Reading the digits of a number gives the number back.
pub proof fn lemma_digits_read_back(n: nat)
    ensures
        decimal(digits(n)) == n,
        all_digits(digits(n)),
        digits(n).len() > 0,
        n >= 10 ==> digits(n)[0] != '0',
        n > 0 ==> digits(n)[0] != '0',
    decreases n,
{
    reveal_with_fuel(decimal, 2);
    if n >= 10 {
        lemma_digits_read_back(n / 10);
        assert(digits(n).drop_last() =~= digits(n / 10));
    } else {
        assert(digits(n).drop_last() =~= Seq::empty());
    }
}

fn digit_char(d: u64) -> (r: char)
    requires
        d < 10,
    ensures
        r == ('0' as int + d) as char,
{
    match d {
        0 => '0',
        1 => '1',
        2 => '2',
        3 => '3',
        4 => '4',
        5 => '5',
        6 => '6',
        7 => '7',
        8 => '8',
        _ => '9',
    }
}

/// A number in decimal.
pub fn number(n: u64) -> (r: String)
    ensures
        r@ == digits(n as nat),
    decreases n,
{
    if n < 10 {
        let mut s = String::new();
        s.push(digit_char(n));
        assert(s@ =~= digits(n as nat));
        s
    } else {
        let mut s = number(n / 10);
        s.push(digit_char(n % 10));
        s
    }
}

/// Whether a character has the Unicode property White_Space.
pub open spec fn whitespace(c: char) -> bool {
    let n = c as int;
    9 <= n <= 13 || n == 0x20 || n == 0x85 || n == 0xa0 || n == 0x1680 || 0x2000 <= n <= 0x200a
        || n == 0x2028 || n == 0x2029 || n == 0x202f || n == 0x205f || n == 0x3000
}

/// Whether a character has the Unicode property White_Space.
pub fn is_whitespace(c: char) -> (r: bool)
    ensures
        r == whitespace(c),
{
    let n: u32 = c as u32;
    (9 <= n && n <= 13) || n == 0x20 || n == 0x85 || n == 0xa0 || n == 0x1680 || (0x2000 <= n && n
        <= 0x200a) || n == 0x2028 || n == 0x2029 || n == 0x202f || n == 0x205f || n == 0x3000
}

/// `s` without leading whitespace.
pub open spec fn trim_start(s: Seq<char>) -> Seq<char>
    decreases s.len(),
{
    if s.len() > 0 && whitespace(s[0]) {
        trim_start(s.drop_first())
    } else {
        s
    }
}

/// `s` without trailing whitespace.
pub open spec fn trim_end(s: Seq<char>) -> Seq<char>
    decreases s.len(),
{
    if s.len() > 0 && whitespace(s.last()) {
        trim_end(s.drop_last())
    } else {
        s
    }
}

/// `s` without leading and trailing whitespace.
pub open spec fn trimmed(s: Seq<char>) -> Seq<char> {
    trim_end(trim_start(s))
}

/// What trimming keeps of a character list, as a range.
pub fn trim_range(chars: &Vec<char>) -> (r: (usize, usize))
    ensures
        r.0 <= r.1 <= chars@.len(),
        chars@.subrange(r.0 as int, r.1 as int) == trimmed(chars@),
{
    let mut from: usize = 0;
    assert(chars@.subrange(0, chars@.len() as int) =~= chars@);
    while from < chars.len() && is_whitespace(chars[from])
        invariant
            from <= chars@.len(),
            trim_start(chars@.subrange(from as int, chars@.len() as int)) == trim_start(chars@),
        decreases chars@.len() - from,
    {
        assert(chars@.subrange(from as int, chars@.len() as int).drop_first() =~= chars@.subrange(
            from + 1,
            chars@.len() as int,
        ));
        from += 1;
    }
    let mut to: usize = chars.len();
    while to > from && is_whitespace(chars[to - 1])
        invariant
            from <= to <= chars@.len(),
            trim_end(chars@.subrange(from as int, to as int)) == trimmed(chars@),
        decreases to,
    {
        assert(chars@.subrange(from as int, to as int).drop_last() =~= chars@.subrange(
            from as int,
            to - 1,
        ));
        to -= 1;
    }
    (from, to)
}

/// A string without leading and trailing whitespace.
pub fn trim(s: &str) -> (r: String)
    ensures
        r@ == trimmed(s@),
{
    let chars = chars_of(s);
    let (from, to) = trim_range(&chars);
    string_of_range(&chars, from, to)
}

/// The first position from `i` on that holds whitespace, or the end.
pub open spec fn word_end(s: Seq<char>, i: int) -> int
    decreases s.len() - i,
{
    if 0 <= i < s.len() && !whitespace(s[i]) {
        word_end(s, i + 1)
    } else {
        i
    }
}

/// The maximal runs of characters without whitespace.
pub open spec fn words(s: Seq<char>) -> Seq<Seq<char>>
    decreases s.len(),
{
    let t = trim_start(s);
    if t.len() == 0 || t.len() > s.len() {
        Seq::empty()
    } else {
        let end = word_end(t, 1);
        if 0 < end <= t.len() {
            seq![t.take(end)] + words(t.skip(end))
        } else {
            Seq::empty()
        }
    }
}

proof fn lemma_trim_start_skip(s: Seq<char>, i: int)
    requires
        0 <= i <= s.len(),
        forall|j: int| 0 <= j < i ==> whitespace(#[trigger] s[j]),
        i < s.len() ==> !whitespace(s[i]),
    ensures
        trim_start(s) == s.skip(i),
    decreases s.len(),
{
    if i == 0 {
        assert(s.skip(0) =~= s);
    } else {
        assert(s.drop_first().skip(i - 1) =~= s.skip(i));
        assert forall|j: int| 0 <= j < i - 1 implies whitespace(#[trigger] s.drop_first()[j]) by {
            assert(whitespace(s[j + 1]));
        }
        lemma_trim_start_skip(s.drop_first(), i - 1);
    }
}

proof fn lemma_word_end(s: Seq<char>, i: int, end: int)
    requires
        0 <= i <= end <= s.len(),
        forall|j: int| i <= j < end ==> !whitespace(#[trigger] s[j]),
        end < s.len() ==> whitespace(s[end]),
    ensures
        word_end(s, i) == end,
    decreases end - i,
{
    if i < end {
        lemma_word_end(s, i + 1, end);
    }
}

/// The words of a string.
pub fn split_whitespace(s: &str) -> (r: Vec<String>)
    ensures
        views(r@) == words(s@),
{
    let chars = chars_of(s);
    let n: usize = chars.len();
    let mut out: Vec<String> = Vec::new();
    let mut at: usize = 0;
    assert(chars@.skip(0) =~= chars@);
    assert(views(out@) + words(chars@) =~= words(chars@));
    while at < n
        invariant
            n == chars@.len(),
            at <= n,
            views(out@) + words(chars@.skip(at as int)) == words(chars@),
        decreases n - at,
    {
        let ghost rest = chars@.skip(at as int);
        let mut from: usize = at;
        while from < n && is_whitespace(chars[from])
            invariant
                n == chars@.len(),
                at <= from <= n,
                rest == chars@.skip(at as int),
                forall|j: int| 0 <= j < from - at ==> whitespace(#[trigger] rest[j]),
            decreases n - from,
        {
            assert(rest[from - at] == chars@[from as int]);
            from += 1;
        }
        proof {
            if from < n {
                assert(rest[from - at] == chars@[from as int]);
            }
            lemma_trim_start_skip(rest, from - at);
        }
        let ghost t = trim_start(rest);
        assert(t =~= chars@.skip(from as int));
        if from == n {
            assert(words(rest) =~= Seq::empty());
            assert(chars@.skip(n as int) =~= Seq::empty());
            assert(words(chars@.skip(n as int)) =~= Seq::empty());
            at = n;
        } else {
            let mut to: usize = from + 1;
            while to < n && !is_whitespace(chars[to])
                invariant
                    n == chars@.len(),
                    from + 1 <= to <= n,
                    t == chars@.skip(from as int),
                    forall|j: int| 1 <= j < to - from ==> !whitespace(#[trigger] t[j]),
                decreases n - to,
            {
                assert(t[to - from] == chars@[to as int]);
                to += 1;
            }
            proof {
                if to < n {
                    assert(t[to - from] == chars@[to as int]);
                }
                lemma_word_end(t, 1, to - from);
                assert(t.skip(to - from) =~= chars@.skip(to as int));
            }
            let word = string_of_range(&chars, from, to);
            assert(word@ =~= t.take(to - from));
            proof {
                lemma_views_push(out@, word);
                assert(views(out@).push(word@) + words(chars@.skip(to as int)) =~= views(out@)
                    + words(rest));
            }
            out.push(word);
            at = to;
        }
    }
    assert(chars@.skip(at as int) =~= Seq::empty());
    assert(words(chars@.skip(at as int)) =~= Seq::empty());
    assert(views(out@) + words(chars@.skip(at as int)) =~= views(out@));
    out
}

proof fn lemma_split_step(s: Seq<char>, c: char, sep: char)
    ensures
        split(s.push(c), sep) == if c == sep {
            split(s, sep).push(Seq::empty())
        } else {
            split(s, sep).drop_last().push(split(s, sep).last().push(c))
        },
{
    assert(s.push(c).drop_last() =~= s);
}

/// The parts of a string between separators.
pub fn split_at(s: &str, sep: char) -> (r: Vec<String>)
    ensures
        views(r@) == split(s@, sep),
{
    let chars = chars_of(s);
    let mut out: Vec<String> = Vec::new();
    let mut current = String::new();
    assert(s@.take(0) =~= Seq::empty());
    assert(views(out@).push(current@) =~= split(s@.take(0), sep));
    for i in 0..chars.len()
        invariant
            chars@ == s@,
            views(out@).push(current@) == split(s@.take(i as int), sep),
    {
        let c: char = chars[i];
        let ghost before = views(out@);
        proof {
            lemma_split_step(s@.take(i as int), c, sep);
            assert(s@.take(i + 1) =~= s@.take(i as int).push(c));
            assert(before.push(current@).drop_last() =~= before);
        }
        if c == sep {
            proof {
                lemma_views_push(out@, current);
            }
            out.push(current);
            current = String::new();
            assert(current@ =~= Seq::empty());
        } else {
            current.push(c);
        }
    }
    assert(s@.take(s@.len() as int) =~= s@);
    proof {
        lemma_views_push(out@, current);
    }
    out.push(current);
    out
}

/// Whether `part` stands in `s` at position `i`.
pub open spec fn occurs_at(s: Seq<char>, part: Seq<char>, i: int) -> bool {
    0 <= i && i + part.len() <= s.len() && s.subrange(i, i + part.len()) == part
}

/// Whether `part` stands somewhere in `s`.
pub open spec fn occurs(s: Seq<char>, part: Seq<char>) -> bool {
    exists|i: int| occurs_at(s, part, i)
}

/// Whether `part` stands in `s` at position `i`.
pub fn occurs_here(s: &Vec<char>, part: &Vec<char>, i: usize) -> (r: bool)
    ensures
        r == occurs_at(s@, part@, i as int),
{
    if part.len() > s.len() || i > s.len() - part.len() {
        return false;
    }
    let n: usize = s.len();
    for j in 0..part.len()
        invariant
            i + part@.len() <= n == s@.len(),
            forall|k: int| 0 <= k < j ==> s@[i + k] == #[trigger] part@[k],
    {
        if s[i + j] != part[j] {
            assert(s@.subrange(i as int, i + part@.len())[j as int] != part@[j as int]);
            return false;
        }
    }
    assert(s@.subrange(i as int, i + part@.len()) =~= part@);
    true
}

/// Whether a string contains another.
pub fn contains(s: &str, part: &str) -> (r: bool)
    ensures
        r == occurs(s@, part@),
{
    let a = chars_of(s);
    let b = chars_of(part);
    if b.len() > a.len() {
        return false;
    }
    let last: usize = a.len() - b.len();
    let mut i: usize = 0;
    while i <= last
        invariant
            a@ == s@,
            b@ == part@,
            last == a@.len() - b@.len(),
            i <= last,
            forall|k: int| 0 <= k < i ==> !occurs_at(s@, part@, k),
        ensures
            forall|k: int| 0 <= k <= last ==> !occurs_at(s@, part@, k),
        decreases last - i,
    {
        if occurs_here(&a, &b, i) {
            return true;
        }
        if i == last {
            break;
        }
        i += 1;
    }
    assert forall|k: int| !occurs_at(s@, part@, k) by {
        if occurs_at(s@, part@, k) {
            assert(0 <= k <= last);
        }
    }
    false
}

/// Where a text stands in another from position `i` on; occurrences do not
/// overlap.
pub open spec fn matches_from(s: Seq<char>, part: Seq<char>, i: int) -> Seq<int>
    decreases s.len() - i,
{
    if part.len() == 0 || i < 0 || i + part.len() > s.len() {
        Seq::empty()
    } else if occurs_at(s, part, i) {
        seq![i] + matches_from(s, part, i + part.len())
    } else {
        matches_from(s, part, i + 1)
    }
}

pub open spec fn ints(s: Seq<usize>) -> Seq<int> {
    Seq::new(s.len(), |i: int| s[i] as int)
}

/// Whether a text stands in another at a position. The ends are compared first,
/// since long common starts are more frequent than long common ends.
fn ends_alike(s: &Vec<char>, part: &Vec<char>, i: usize) -> (r: bool)
    requires
        i + part@.len() <= s@.len(),
    ensures
        r == occurs_at(s@, part@, i as int),
{
    let n: usize = s.len();
    let mut j: usize = part.len();
    while j > 0
        invariant
            n == s@.len(),
            i + part@.len() <= n,
            j <= part@.len(),
            forall|k: int| j <= k < part@.len() ==> s@[i + k] == #[trigger] part@[k],
        decreases j,
    {
        j -= 1;
        if s[i + j] != part[j] {
            assert(s@.subrange(i as int, i + part@.len())[j as int] != part@[j as int]);
            return false;
        }
    }
    assert(s@.subrange(i as int, i + part@.len()) =~= part@);
    true
}

/// Whether matches of a length lie in a text, one after the other.
pub open spec fn matches_fit(m: Seq<int>, from: int, part: int, len: int) -> bool {
    &&& forall|k: int| 0 <= k < m.len() ==> from <= #[trigger] m[k] && m[k] + part <= len
    &&& forall|k: int, l: int|
        0 <= k < l < m.len() ==> #[trigger] m[k] + part <= #[trigger] m[l]
}

pub proof fn lemma_matches_fit(s: Seq<char>, part: Seq<char>, i: int)
    requires
        0 <= i,
    ensures
        matches_fit(matches_from(s, part, i), i, part.len() as int, s.len() as int),
    decreases s.len() - i,
{
    let m = matches_from(s, part, i);
    if part.len() == 0 || i + part.len() > s.len() {
        assert(m.len() == 0);
    } else if occurs_at(s, part, i) {
        lemma_matches_fit(s, part, i + part.len());
        let rest = matches_from(s, part, i + part.len());
        assert(m == seq![i] + rest);
        assert forall|k: int, l: int| 0 <= k < l < m.len() implies #[trigger] m[k] + part.len()
            <= #[trigger] m[l] by {
            assert(m[l] == rest[l - 1]);
            if k > 0 {
                assert(m[k] == rest[k - 1]);
            }
        }
        assert forall|k: int| 0 <= k < m.len() implies i <= #[trigger] m[k] && m[k] + part.len()
            <= s.len() by {
            if k > 0 {
                assert(m[k] == rest[k - 1]);
            }
        }
    } else {
        lemma_matches_fit(s, part, i + 1);
        assert(m == matches_from(s, part, i + 1));
    }
}

/// Where a text stands in another; occurrences do not overlap.
pub fn match_indices(s: &Vec<char>, part: &Vec<char>) -> (r: Vec<usize>)
    ensures
        ints(r@) == matches_from(s@, part@, 0),
{
    let mut out: Vec<usize> = Vec::new();
    let n: usize = s.len();
    let len: usize = part.len();
    if len == 0 || len > n {
        assert(ints(out@) =~= Seq::empty());
        return out;
    }
    let last: usize = n - len;
    let mut i: usize = 0;
    assert(ints(out@) + matches_from(s@, part@, 0) =~= matches_from(s@, part@, 0));
    while i <= last
        invariant
            n == s@.len(),
            len == part@.len(),
            len > 0,
            last == n - len,
            ints(out@) + matches_from(s@, part@, i as int) == matches_from(s@, part@, 0),
            i <= n,
        decreases n - i,
    {
        let ghost before = ints(out@);
        if ends_alike(s, part, i) {
            out.push(i);
            assert(ints(out@) =~= before.push(i as int));
            assert(before + (seq![i as int] + matches_from(s@, part@, i + len)) =~= before.push(
                i as int,
            ) + matches_from(s@, part@, i + len));
            i += len;
        } else {
            i += 1;
        }
    }
    assert(matches_from(s@, part@, i as int) =~= Seq::empty());
    assert(ints(out@) =~= ints(out@) + matches_from(s@, part@, i as int));
    out
}

/// A text from position `i` on, with another in place of each occurrence of a
/// third.
pub open spec fn replaced(s: Seq<char>, part: Seq<char>, with: Seq<char>, i: int) -> Seq<char>
    decreases s.len() - i,
{
    if part.len() == 0 || i < 0 || i >= s.len() {
        s.skip(i)
    } else if occurs_at(s, part, i) {
        with + replaced(s, part, with, i + part.len())
    } else {
        seq![s[i]] + replaced(s, part, with, i + 1)
    }
}

/// A text with another in place of each occurrence of a third, which is not
/// empty.
pub fn replace(s: &str, part: &str, with: &str) -> (r: String)
    requires
        part@.len() > 0,
    ensures
        r@ == replaced(s@, part@, with@, 0),
{
    let chars = chars_of(s);
    let wanted = chars_of(part);
    let n: usize = chars.len();
    let mut out = String::new();
    let mut i: usize = 0;
    assert(out@ + replaced(s@, part@, with@, 0) =~= replaced(s@, part@, with@, 0));
    while i < n
        invariant
            n == chars@.len(),
            chars@ == s@,
            wanted@ == part@,
            part@.len() > 0,
            i <= n,
            out@ + replaced(s@, part@, with@, i as int) == replaced(s@, part@, with@, 0),
        decreases n - i,
    {
        let ghost before = out@;
        if occurs_here(&chars, &wanted, i) {
            out.append(with);
            assert(before + (with@ + replaced(s@, part@, with@, i + part@.len())) =~= (before
                + with@) + replaced(s@, part@, with@, i + part@.len()));
            i += wanted.len();
        } else {
            out.push(chars[i]);
            assert(before + (seq![s@[i as int]] + replaced(s@, part@, with@, i + 1))
                =~= before.push(s@[i as int]) + replaced(s@, part@, with@, i + 1));
            i += 1;
        }
    }
    assert(replaced(s@, part@, with@, n as int) =~= Seq::empty());
    assert(out@ + Seq::<char>::empty() =~= out@);
    out
}

/// A text with two blanks in place of each tab.
pub open spec fn without_tabs(s: Seq<char>) -> Seq<char> {
    replaced(s, "\t"@, "  "@, 0)
}

/// Put two blanks in place of each tab.
pub fn tabs_to_spaces(s: &str) -> (r: String)
    ensures
        r@ == without_tabs(s@),
{
    proof {
        reveal_strlit("\t");
    }
    replace(s, "\t", "  ")
}

/// How many bytes a character takes up in a text.
pub open spec fn char_bytes(c: char) -> int {
    if c <= '\u{7f}' {
        1
    } else if c <= '\u{7ff}' {
        2
    } else if c <= '\u{ffff}' {
        3
    } else {
        4
    }
}

/// Where the longest run of characters starts that ends at `i` and takes up at
/// most `bytes` bytes.
pub open spec fn fitting_start(s: Seq<char>, i: int, bytes: int) -> int
    decreases i,
{
    if 0 < i <= s.len() && char_bytes(s[i - 1]) <= bytes {
        fitting_start(s, i - 1, bytes - char_bytes(s[i - 1]))
    } else {
        i
    }
}

/// The longest end of a text that takes up at most `width` bytes, or all of it
/// if not even one character does.
pub open spec fn trimmed_left(s: Seq<char>, width: int) -> Seq<char> {
    let start = fitting_start(s, s.len() as int, width);
    if start >= s.len() {
        s
    } else {
        s.skip(start)
    }
}

/// Cut a text at its start so that it takes up at most `width` bytes, if one of
/// its characters fits.
pub fn trim_length_left(s: &str, width: usize) -> (r: String)
    ensures
        r@ == trimmed_left(s@, width as int),
{
    let chars = chars_of(s);
    let mut left: usize = width;
    let mut i: usize = chars.len();
    while i > 0
        invariant
            chars@ == s@,
            i <= chars@.len(),
            fitting_start(s@, i as int, left as int) == fitting_start(
                s@,
                s@.len() as int,
                width as int,
            ),
        ensures
            i <= chars@.len(),
            i == fitting_start(s@, s@.len() as int, width as int),
        decreases i,
    {
        let c: char = chars[i - 1];
        let n: usize = if c <= '\u{7f}' {
            1
        } else if c <= '\u{7ff}' {
            2
        } else if c <= '\u{ffff}' {
            3
        } else {
            4
        };
        if n > left {
            break;
        }
        left -= n;
        i -= 1;
    }
    if i >= chars.len() {
        return s.to_owned();
    }
    assert(chars@.subrange(i as int, chars@.len() as int) =~= s@.skip(i as int));
    string_of_range(&chars, i, chars.len())
}

/// What bytes are read as, with a sign in place of those that are no text.
pub uninterp spec fn lossy_text(bytes: Seq<u8>) -> Seq<char>;

/// `String::from_utf8_lossy` reads bytes as text. Bytes that are text in whole
/// are read as that text.
#[verifier::external_body]
pub(crate) fn from_utf8_lossy(bytes: &[u8]) -> (r: String)
    ensures
        r@ == lossy_text(bytes@),
        vstd::utf8::valid_utf8(bytes@) ==> r@ == vstd::utf8::decode_utf8(bytes@),
{
    String::from_utf8_lossy(bytes).into_owned()
}

/// Whether a text starts with another.
pub open spec fn starts(s: Seq<char>, prefix: Seq<char>) -> bool {
    occurs_at(s, prefix, 0)
}

/// Whether a text starts with another.
pub fn starts_with(s: &str, prefix: &str) -> (r: bool)
    ensures
        r == starts(s@, prefix@),
{
    occurs_here(&chars_of(s), &chars_of(prefix), 0)
}

/// A text without another at its start, if it starts with it.
pub fn strip_prefix(s: &str, prefix: &str) -> (r: Option<String>)
    ensures
        match r {
            Some(rest) => starts(s@, prefix@) && rest@ == s@.skip(prefix@.len() as int),
            None => !starts(s@, prefix@),
        },
{
    let a = chars_of(s);
    let b = chars_of(prefix);
    if occurs_here(&a, &b, 0) {
        let rest = string_of_range(&a, b.len(), a.len());
        assert(rest@ =~= s@.skip(prefix@.len() as int));
        Some(rest)
    } else {
        None
    }
}

/// The string that repeats one character.
pub fn repeat_char(c: char, n: usize) -> (r: String)
    ensures
        r@ == Seq::new(n as nat, |i: int| c),
{
    let mut out = String::new();
    for i in 0..n
        invariant
            out@ =~= Seq::new(i as nat, |j: int| c),
    {
        out.push(c);
    }
    out
}

/// Text with spaces before it, if it is shorter than `width`.
pub open spec fn right_aligned(s: Seq<char>, width: int) -> Seq<char> {
    if s.len() < width {
        Seq::new((width - s.len()) as nat, |i: int| ' ') + s
    } else {
        s
    }
}

/// Text with spaces behind it, if it is shorter than `width`.
pub open spec fn left_aligned(s: Seq<char>, width: int) -> Seq<char> {
    if s.len() < width {
        s + Seq::new((width - s.len()) as nat, |i: int| ' ')
    } else {
        s
    }
}

/// A text in the middle of a field; an odd blank goes to the right.
pub open spec fn centered(s: Seq<char>, width: int) -> Seq<char> {
    if s.len() >= width {
        s
    } else {
        let left = (width - s.len()) / 2;
        Seq::new(left as nat, |i: int| ' ') + s + Seq::new(
            (width - s.len() - left) as nat,
            |i: int| ' ',
        )
    }
}

/// A text in the middle of a field.
pub fn align_center(s: &str, width: usize) -> (r: String)
    ensures
        r@ == centered(s@, width as int),
{
    let n: usize = s.unicode_len();
    if n >= width {
        return s.to_owned();
    }
    let left: usize = (width - n) / 2;
    let mut out = repeat_char(' ', left);
    out.append(s);
    let right = repeat_char(' ', width - n - left);
    out.append(right.as_str());
    assert(out@ =~= centered(s@, width as int));
    out
}

/// Text with spaces before it, if it is shorter than `width`.
pub fn align_right(s: &str, width: usize) -> (r: String)
    ensures
        r@ == right_aligned(s@, width as int),
{
    let chars = chars_of(s);
    if chars.len() < width {
        let mut out = repeat_char(' ', width - chars.len());
        out.append(s);
        out
    } else {
        s.to_owned()
    }
}

/// Text with spaces behind it, if it is shorter than `width`.
pub fn align_left(s: &str, width: usize) -> (r: String)
    ensures
        r@ == left_aligned(s@, width as int),
{
    let chars = chars_of(s);
    let mut out = s.to_owned();
    if chars.len() < width {
        let pad = repeat_char(' ', width - chars.len());
        out.append(pad.as_str());
    }
    out
}

/// Two strings, one after the other.
pub fn join2(a: &str, b: &str) -> (r: String)
    ensures
        r@ == a@ + b@,
{
    let mut out = a.to_owned();
    out.append(b);
    out
}

/// Three strings, one after the other.
pub fn join3(a: &str, b: &str, c: &str) -> (r: String)
    ensures
        r@ == a@ + b@ + c@,
{
    let mut out = join2(a, b);
    out.append(c);
    out
}

/// Whether two strings hold the same characters.
pub fn same(a: &str, b: &str) -> (r: bool)
    ensures
        r == (a@ == b@),
{
    let x = chars_of(a);
    let y = chars_of(b);
    if x.len() != y.len() {
        return false;
    }
    for i in 0..x.len()
        invariant
            x@ == a@,
            y@ == b@,
            x@.len() == y@.len(),
            forall|j: int| 0 <= j < i ==> x@[j] == y@[j],
    {
        if x[i] != y[i] {
            return false;
        }
    }
    assert(x@ =~= y@);
    true
}

/// The position of the first line break from `i` on, or the end.
pub open spec fn line_end(s: Seq<char>, i: int) -> int
    decreases s.len() - i,
{
    if 0 <= i < s.len() && s[i] != '\n' {
        line_end(s, i + 1)
    } else {
        i
    }
}

pub open spec fn without_return(s: Seq<char>) -> Seq<char> {
    if s.len() > 0 && s.last() == '\r' {
        s.drop_last()
    } else {
        s
    }
}

/// The lines of a text from position `i` on. A line ends with a line break,
/// which may have a carriage return before it, or with the text.
pub open spec fn lines_from(s: Seq<char>, i: int) -> Seq<Seq<char>>
    decreases s.len() - i,
{
    let end = line_end(s, i);
    if i < 0 || i >= s.len() || end < i {
        Seq::empty()
    } else if end >= s.len() {
        seq![s.subrange(i, s.len() as int)]
    } else {
        seq![without_return(s.subrange(i, end))] + lines_from(s, end + 1)
    }
}

/// The lines of a text.
pub open spec fn lines_of(s: Seq<char>) -> Seq<Seq<char>> {
    lines_from(s, 0)
}

fn find_line_end(chars: &Vec<char>, from: usize) -> (r: usize)
    requires
        from <= chars@.len(),
    ensures
        r == line_end(chars@, from as int),
        from <= r <= chars@.len(),
{
    let mut i: usize = from;
    while i < chars.len() && chars[i] != '\n'
        invariant
            from <= i <= chars@.len(),
            line_end(chars@, i as int) == line_end(chars@, from as int),
        decreases chars@.len() - i,
    {
        i += 1;
    }
    i
}

/// The lines of a text, as `str::lines` yields them.
pub fn lines(s: &str) -> (r: Vec<String>)
    ensures
        views(r@) == lines_of(s@),
{
    let chars = chars_of(s);
    let n: usize = chars.len();
    let mut out: Vec<String> = Vec::new();
    let mut i: usize = 0;
    while i < n
        invariant
            n == chars@.len(),
            chars@ == s@,
            i <= n,
            views(out@) + lines_from(s@, i as int) == lines_of(s@),
        decreases n - i,
    {
        let end: usize = find_line_end(&chars, i);
        let mut to: usize = end;
        if end < n && end > i && chars[end - 1] == '\r' {
            to = end - 1;
        }
        let ghost before = views(out@);
        let line = string_of_range(&chars, i, to);
        proof {
            if end < n {
                assert(line@ =~= without_return(s@.subrange(i as int, end as int)));
            }
            lemma_views_push(out@, line);
        }
        out.push(line);
        if end < n {
            assert(before + (seq![line@] + lines_from(s@, end + 1)) =~= before.push(line@)
                + lines_from(s@, end + 1));
            i = end + 1;
        } else {
            assert(before + seq![line@] =~= before.push(line@) + lines_from(s@, n as int));
            i = n;
        }
    }
    assert(views(out@) + lines_from(s@, n as int) =~= views(out@));
    out
}

/// Copies of some strings.
pub fn clone_strings(list: &Vec<String>) -> (r: Vec<String>)
    ensures
        r@ == list@,
{
    let mut out: Vec<String> = Vec::new();
    for i in 0..list.len()
        invariant
            out@ =~= list@.take(i as int),
    {
        out.push(list[i].clone());
    }
    assert(list@.take(list@.len() as int) =~= list@);
    out
}

/// Strings, with another between them.
pub fn join(list: &Vec<String>, sep: &str) -> (r: String)
    ensures
        r@ == joined(views(list@), sep@),
{
    let mut out = String::new();
    for i in 0..list.len()
        invariant
            out@ == joined(views(list@.take(i as int)), sep@),
    {
        proof {
            let before = views(list@.take(i as int));
            assert(views(list@.take(i + 1)) =~= before.push(list@[i as int]@));
            lemma_joined_push(before, sep@, list@[i as int]@);
        }
        if i > 0 {
            out.append(sep);
        }
        out.append(list[i].as_str());
        assert(out@ =~= joined(views(list@.take(i + 1)), sep@));
    }
    assert(list@.take(list@.len() as int) =~= list@);
    out
}

/// `String::push` appends one character.
pub assume_specification[ String::push ](s: &mut String, c: char)
    ensures
        final(s)@ == old(s)@.push(c),
;

/// The characters of a string.
pub fn chars_of(s: &str) -> (r: Vec<char>)
    ensures
        r@ == s@,
{
    let mut out: Vec<char> = Vec::new();
    for c in it: s.chars()
        invariant
            out@ =~= it.seq().take(it.index() as int),
            it.seq() == s@,
    {
        out.push(c);
    }
    out
}

/// The string of some characters.
pub fn string_of(chars: &Vec<char>) -> (r: String)
    ensures
        r@ == chars@,
{
    string_of_range(chars, 0, chars.len())
}

/// The string of the characters from `from` to before `to`.
pub fn string_of_range(chars: &Vec<char>, from: usize, to: usize) -> (r: String)
    requires
        from <= to <= chars@.len(),
    ensures
        r@ == chars@.subrange(from as int, to as int),
{
    let mut out = String::new();
    for i in from..to
        invariant
            from <= to <= chars@.len(),
            out@ =~= chars@.subrange(from as int, i as int),
    {
        out.push(chars[i]);
    }
    assert(out@ =~= chars@.subrange(from as int, to as int));
    out
}

// ----------------------------------------------------------------------- laws

proof fn lemma_trim_start_keeps(s: Seq<char>, i: int)
    requires
        0 <= i < s.len(),
        !whitespace(s[i]),
    ensures
        trim_start(s).contains(s[i]),
    decreases s.len(),
{
    if whitespace(s[0]) {
        lemma_trim_start_keeps(s.drop_first(), i - 1);
    } else {
        assert(s.contains(s[i]));
    }
}

proof fn lemma_trim_end_keeps(s: Seq<char>, i: int)
    requires
        0 <= i < s.len(),
        !whitespace(s[i]),
    ensures
        trim_end(s).contains(s[i]),
    decreases s.len(),
{
    if whitespace(s.last()) {
        lemma_trim_end_keeps(s.drop_last(), i);
    } else {
        assert(s.contains(s[i]));
    }
}

/// Trimming only takes blanks away, and only those at the ends.
pub proof fn lemma_trimming_keeps_what_is_not_blank(s: Seq<char>)
    ensures
        forall|i: int|
            0 <= i < s.len() && !whitespace(#[trigger] s[i]) ==> trimmed(s).contains(s[i]),
        trimmed(s).len() > 0 ==> !whitespace(trimmed(s)[0]) && !whitespace(trimmed(s).last()),
        exists|a: int, b: int|
            0 <= a <= b <= s.len() && #[trigger] s.subrange(a, b) == trimmed(s),
{
    assert forall|i: int| 0 <= i < s.len() && !whitespace(#[trigger] s[i]) implies trimmed(
        s,
    ).contains(s[i]) by {
        lemma_trim_start_keeps(s, i);
        let t = trim_start(s);
        let k = choose|k: int| 0 <= k < t.len() && t[k] == s[i];
        lemma_trim_end_keeps(t, k);
    }
    lemma_trim_start_ends(s);
    lemma_trim_end_ends(trim_start(s));
    let a = s.len() - trim_start(s).len();
    let b = a + trimmed(s).len();
    assert(s.subrange(a, b) =~= trimmed(s));
}

proof fn lemma_trim_start_ends(s: Seq<char>)
    ensures
        trim_start(s).len() <= s.len(),
        trim_start(s) == s.skip(s.len() - trim_start(s).len()),
        trim_start(s).len() > 0 ==> !whitespace(trim_start(s)[0]),
    decreases s.len(),
{
    if s.len() > 0 && whitespace(s[0]) {
        lemma_trim_start_ends(s.drop_first());
        assert(trim_start(s) =~= s.skip(s.len() - trim_start(s).len()));
    } else {
        assert(s.skip(0) =~= s);
    }
}

proof fn lemma_trim_end_ends(s: Seq<char>)
    ensures
        trim_end(s).len() <= s.len(),
        trim_end(s) == s.take(trim_end(s).len() as int),
        trim_end(s).len() > 0 ==> !whitespace(trim_end(s).last()) && trim_end(s)[0] == s[0],
    decreases s.len(),
{
    if s.len() > 0 && whitespace(s.last()) {
        lemma_trim_end_ends(s.drop_last());
        assert(trim_end(s) =~= s.take(trim_end(s).len() as int));
    } else {
        assert(s.take(s.len() as int) =~= s);
    }
}

/// Text without a blank at its ends is left alone, and blanks alone leave nothing.
pub proof fn lemma_trimming_ends(s: Seq<char>)
    ensures
        s.len() > 0 && !whitespace(s[0]) && !whitespace(s.last()) ==> trimmed(s) == s,
        (forall|i: int| 0 <= i < s.len() ==> whitespace(#[trigger] s[i])) ==> trimmed(s).len()
            == 0,
{
    if forall|i: int| 0 <= i < s.len() ==> whitespace(#[trigger] s[i]) {
        lemma_trim_start_ends(s);
        let t = trim_start(s);
        if t.len() > 0 {
            assert(t[0] == s[s.len() - t.len()]);
        }
        lemma_trim_end_ends(t);
    }
}

/// A blank is what Unicode counts as one: among them the space, the tab and the
/// line break, and no letter and no digit.
pub proof fn lemma_blanks()
    ensures
        whitespace(' '),
        whitespace('\t'),
        whitespace('\n'),
        whitespace('\r'),
        forall|c: char| 'a' <= c <= 'z' ==> !#[trigger] whitespace(c),
        forall|c: char| 'A' <= c <= 'Z' ==> !#[trigger] whitespace(c),
        forall|c: char| '0' <= c <= '9' ==> !#[trigger] whitespace(c),
{
}

/// A piece without separators behind a separator is the last piece.
pub proof fn lemma_split_behind(a: Seq<char>, sep: char, b: Seq<char>)
    requires
        forall|i: int| 0 <= i < b.len() ==> #[trigger] b[i] != sep,
    ensures
        split(a.push(sep) + b, sep) == split(a, sep).push(b),
    decreases b.len(),
{
    let whole = a.push(sep) + b;
    if b.len() == 0 {
        assert(whole =~= a.push(sep));
        assert(whole.drop_last() =~= a);
        assert(b =~= Seq::empty());
    } else {
        lemma_split_behind(a, sep, b.drop_last());
        assert(whole.drop_last() =~= a.push(sep) + b.drop_last());
        assert(whole.last() == b.last());
        assert(split(whole, sep) =~= split(a, sep).push(
            b.drop_last().push(b.last()),
        ));
        assert(b.drop_last().push(b.last()) =~= b);
    }
}

/// A text without separators is one piece.
pub proof fn lemma_split_single(b: Seq<char>, sep: char)
    requires
        forall|i: int| 0 <= i < b.len() ==> #[trigger] b[i] != sep,
    ensures
        split(b, sep) == seq![b],
    decreases b.len(),
{
    if b.len() == 0 {
        assert(b =~= Seq::empty());
    } else {
        lemma_split_single(b.drop_last(), sep);
        assert(split(b, sep) =~= seq![b.drop_last().push(b.last())]);
        assert(b.drop_last().push(b.last()) =~= b);
    }
}

/// Where a text is found, it stands, and it is found wherever it stands for the
/// first time.
pub proof fn lemma_matches_are_occurrences(s: Seq<char>, part: Seq<char>, i: int, k: int)
    requires
        0 <= i,
        part.len() > 0,
    ensures
        0 <= k < matches_from(s, part, i).len() ==> i <= matches_from(s, part, i)[k]
            && matches_from(s, part, i)[k] + part.len() <= s.len() && s.subrange(
            matches_from(s, part, i)[k],
            matches_from(s, part, i)[k] + part.len(),
        ) == part,
        i <= k && k + part.len() <= s.len() && s.subrange(k, k + part.len()) == part
            ==> matches_from(s, part, i).len() > 0 && matches_from(s, part, i)[0] <= k,
    decreases s.len() - i,
{
    if i + part.len() <= s.len() {
        if occurs_at(s, part, i) {
            let rest = matches_from(s, part, i + part.len());
            lemma_matches_are_occurrences(s, part, i + part.len(), k - 1);
            if 0 < k < matches_from(s, part, i).len() {
                assert(matches_from(s, part, i)[k] == rest[k - 1]);
            }
        } else {
            lemma_matches_are_occurrences(s, part, i + 1, k);
        }
    }
}

/// Occurrences do not overlap and stand in their order; behind one the search goes
/// on.
pub proof fn lemma_matches_go_on(s: Seq<char>, part: Seq<char>, i: int)
    requires
        0 <= i,
        part.len() > 0,
        i + part.len() <= s.len(),
    ensures
        s.subrange(i, i + part.len()) == part ==> matches_from(s, part, i) == seq![i]
            + matches_from(s, part, i + part.len()),
        s.subrange(i, i + part.len()) != part ==> matches_from(s, part, i) == matches_from(
            s,
            part,
            i + 1,
        ),
{
}

/// A text in which another does not stand is left as it is.
pub proof fn lemma_nothing_to_replace(s: Seq<char>, part: Seq<char>, with: Seq<char>, i: int)
    requires
        0 <= i <= s.len(),
        part.len() > 0,
        forall|k: int| i <= k && k + part.len() <= s.len() ==> #[trigger] s.subrange(
            k,
            k + part.len(),
        ) != part,
    ensures
        replaced(s, part, with, i) == s.skip(i),
    decreases s.len() - i,
{
    if i < s.len() {
        assert(!occurs_at(s, part, i)) by {
            if i + part.len() <= s.len() {
                assert(s.subrange(i, i + part.len()) != part);
            }
        }
        lemma_nothing_to_replace(s, part, with, i + 1);
        assert(seq![s[i]] + s.skip(i + 1) =~= s.skip(i));
    }
}

/// Where a text stands, the other one takes its place, and the rest follows.
pub proof fn lemma_replaced(s: Seq<char>, part: Seq<char>, with: Seq<char>, i: int)
    requires
        0 <= i < s.len(),
        part.len() > 0,
    ensures
        i + part.len() <= s.len() && s.subrange(i, i + part.len()) == part ==> replaced(
            s,
            part,
            with,
            i,
        ) == with + replaced(s, part, with, i + part.len()),
        !(i + part.len() <= s.len() && s.subrange(i, i + part.len()) == part) ==> replaced(
            s,
            part,
            with,
            i,
        ) == seq![s[i]] + replaced(s, part, with, i + 1),
{
}

/// Blanks around a text do not matter for what it is without them.
pub proof fn lemma_blanks_around(before: Seq<char>, s: Seq<char>, behind: Seq<char>)
    requires
        s.len() > 0,
        !whitespace(s[0]),
        !whitespace(s.last()),
        forall|i: int| 0 <= i < before.len() ==> whitespace(#[trigger] before[i]),
        forall|i: int| 0 <= i < behind.len() ==> whitespace(#[trigger] behind[i]),
    ensures
        trimmed(before + s + behind) == s,
    decreases before.len() + behind.len(),
{
    let all = before + s + behind;
    if before.len() > 0 {
        assert(all[0] == before[0]);
        assert(all.drop_first() =~= before.drop_first() + s + behind);
        lemma_blanks_around(before.drop_first(), s, behind);
    } else {
        assert(all =~= s + behind);
        lemma_blanks_behind(s, behind);
        assert(all[0] == s[0]);
    }
}

proof fn lemma_blanks_behind(s: Seq<char>, behind: Seq<char>)
    requires
        s.len() > 0,
        !whitespace(s.last()),
        forall|i: int| 0 <= i < behind.len() ==> whitespace(#[trigger] behind[i]),
    ensures
        trim_end(s + behind) == s,
    decreases behind.len(),
{
    let all = s + behind;
    if behind.len() > 0 {
        assert(all.last() == behind.last());
        assert(all.drop_last() =~= s + behind.drop_last());
        lemma_blanks_behind(s, behind.drop_last());
    } else {
        assert(all =~= s);
    }
}

/// A number stands at the right of its field, other text at the left or in the
/// middle, always whole; the rest of the field is blank.
pub proof fn lemma_fields(s: Seq<char>, width: int)
    requires
        s.len() <= width,
    ensures
        right_aligned(s, width).len() == width,
        right_aligned(s, width).skip(width - s.len()) == s,
        left_aligned(s, width).len() == width,
        left_aligned(s, width).take(s.len() as int) == s,
        centered(s, width).len() == width,
        centered(s, width).subrange((width - s.len()) / 2, (width - s.len()) / 2 + s.len()) == s,
        forall|i: int| 0 <= i < width - s.len() ==> #[trigger] right_aligned(s, width)[i] == ' ',
        forall|i: int| s.len() <= i < width ==> #[trigger] left_aligned(s, width)[i] == ' ',
        forall|i: int|
            0 <= i < (width - s.len()) / 2 || (width - s.len()) / 2 + s.len() <= i < width
                ==> #[trigger] centered(s, width)[i] == ' ',
{
    assert(right_aligned(s, width).skip(width - s.len()) =~= s);
    assert(left_aligned(s, width).take(s.len() as int) =~= s);
    assert(centered(s, width).subrange(
        (width - s.len()) / 2,
        (width - s.len()) / 2 + s.len(),
    ) =~= s);
}

/// Text that is too long for its field is not cut.
pub proof fn lemma_long_text_is_not_cut(s: Seq<char>, width: int)
    requires
        s.len() >= width,
    ensures
        right_aligned(s, width) == s,
        left_aligned(s, width) == s,
        centered(s, width) == s,
{
}

proof fn lemma_line_end_of(s: Seq<char>, i: int)
    requires
        0 <= i <= s.len(),
    ensures
        i <= line_end(s, i) <= s.len(),
        line_end(s, i) < s.len() ==> s[line_end(s, i)] == '\n',
        forall|k: int| i <= k < line_end(s, i) ==> #[trigger] s[k] != '\n',
    decreases s.len() - i,
{
    if i < s.len() && s[i] != '\n' {
        lemma_line_end_of(s, i + 1);
    }
}

proof fn lemma_lines_behind(head: Seq<char>, s: Seq<char>, i: int)
    requires
        0 <= i,
    ensures
        lines_from(head + s, head.len() + i) == lines_from(s, i),
    decreases s.len() - i,
{
    if i < s.len() {
        lemma_line_end_of(s, i);
        lemma_line_end_of(head + s, head.len() + i);
        let end = line_end(s, i);
        let other = line_end(head + s, head.len() + i);
        if other < head.len() + end {
            assert((head + s)[other] == s[other - head.len()]);
        } else if other > head.len() + end {
            assert((head + s)[head.len() + end] == s[end]);
        }
        if end < s.len() {
            lemma_lines_behind(head, s, end + 1);
            assert((head + s).subrange(head.len() + i, head.len() + end) =~= s.subrange(i, end));
        } else {
            assert((head + s).subrange(head.len() + i, (head + s).len() as int) =~= s.subrange(
                i,
                s.len() as int,
            ));
        }
    }
}

/// A text is broken behind each line break: the first line is what stands before
/// the first one, the other lines are those of what stands behind it.
pub proof fn lemma_texts_are_broken_into_lines(a: Seq<char>, b: Seq<char>)
    requires
        forall|i: int| 0 <= i < a.len() ==> a[i] != '\n',
    ensures
        lines_of(a.push('\n') + b) == seq![
            if a.len() > 0 && a.last() == '\r' {
                a.drop_last()
            } else {
                a
            },
        ] + lines_of(b),
        lines_of(a) == if a.len() > 0 {
            seq![a]
        } else {
            Seq::empty()
        },
{
    let head = a.push('\n');
    let s = head + b;
    lemma_line_end_of(s, 0);
    lemma_line_end_of(a, 0);
    let end = line_end(s, 0);
    if end < a.len() {
        assert(s[end] == a[end]);
    } else if end > a.len() {
        assert(s[a.len() as int] == '\n');
    }
    if line_end(a, 0) < a.len() {
        assert(a[line_end(a, 0)] != '\n');
    }
    lemma_lines_behind(head, b, 0);
    assert(s.subrange(0, end) =~= a);
    assert(a.subrange(0, a.len() as int) =~= a);
}

/// Joining puts the separator between any two parts, and nowhere else.
pub proof fn lemma_parts_are_joined(a: Seq<Seq<char>>, part: Seq<char>, sep: Seq<char>)
    requires
        a.len() > 0,
    ensures
        joined(a.push(part), sep) == joined(a, sep) + sep + part,
        joined(seq![part], sep) == part,
        joined(Seq::empty(), sep).len() == 0,
{
    assert(a.push(part).drop_last() =~= a);
}

/// A number is read where there are digits and nothing else, and as the number
/// that they are.
pub proof fn lemma_numbers_are_read(n: u32, s: Seq<char>)
    ensures
        parsed_u32(digits(n as nat)) == Some(n),
        parsed_u32(s) is Some ==> s.len() > 0 && all_digits(s) && decimal(s) == parsed_u32(s)->0,
        s.len() > 0 && all_digits(s) && decimal(s) <= u32::MAX ==> parsed_u32(s) is Some,
{
    lemma_digits_read_back(n as nat);
}

/// Bytes that the characters from one position to another take up.
pub open spec fn bytes_between(s: Seq<char>, i: int, j: int) -> int
    decreases j - i,
{
    if i >= j {
        0
    } else {
        bytes_between(s, i, j - 1) + char_bytes(s[j - 1])
    }
}

proof fn lemma_bytes_between_first(s: Seq<char>, i: int, j: int)
    requires
        i < j,
    ensures
        bytes_between(s, i, j) == char_bytes(s[i]) + bytes_between(s, i + 1, j),
    decreases j - i,
{
    if i + 1 < j {
        lemma_bytes_between_first(s, i, j - 1);
    } else {
        reveal_with_fuel(bytes_between, 2);
    }
}

proof fn lemma_fitting_start(s: Seq<char>, i: int, bytes: int, end: int)
    requires
        0 <= i <= end <= s.len(),
        0 <= bytes,
    ensures
        ({
            let r = fitting_start(s, i, bytes);
            let all = bytes + bytes_between(s, i, end);
            &&& 0 <= r <= i
            &&& bytes_between(s, r, end) <= all
            &&& r > 0 ==> bytes_between(s, r - 1, end) > all
        }),
    decreases i,
{
    if 0 < i {
        lemma_bytes_between_first(s, i - 1, end);
        if char_bytes(s[i - 1]) <= bytes {
            lemma_fitting_start(s, i - 1, bytes - char_bytes(s[i - 1]), end);
        }
    }
}

/// A text that is cut at its left keeps its end, as much of it as fits.
pub proof fn lemma_texts_are_cut_at_the_left(s: Seq<char>, width: int)
    requires
        0 <= width,
    ensures
        ({
            let r = trimmed_left(s, width);
            let start = s.len() - r.len();
            let len = s.len() as int;
            &&& r.is_suffix_of(s)
            &&& r.len() < s.len() ==> bytes_between(s, start, len) <= width && bytes_between(
                s,
                start - 1,
                len,
            ) > width
            &&& bytes_between(s, 0, len) <= width ==> r == s
        }),
{
    let len = s.len() as int;
    lemma_fitting_start(s, len, width, len);
    let start = fitting_start(s, len, width);
    let r = trimmed_left(s, width);
    assert(r =~= s.subrange(s.len() - r.len(), len));
    if bytes_between(s, 0, len) <= width && start > 0 {
        lemma_fewer_bytes(s, 0, start - 1, len);
    }
}

proof fn lemma_fewer_bytes(s: Seq<char>, i: int, k: int, j: int)
    requires
        i <= k <= j,
    ensures
        bytes_between(s, k, j) <= bytes_between(s, i, j),
    decreases k - i,
{
    if i < k {
        lemma_fewer_bytes(s, i + 1, k, j);
        lemma_bytes_between_first(s, i, j);
    }
}

/// Without tabs a text has two blanks in the place of each, and all else is kept.
pub proof fn lemma_tabs_become_blanks(s: Seq<char>)
    ensures
        without_tabs(seq!['\t'] + s) == seq![' ', ' '] + without_tabs(s),
        forall|c: char|
            c != '\t' ==> #[trigger] without_tabs(seq![c] + s) == seq![c] + without_tabs(s),
        without_tabs(Seq::empty()).len() == 0,
{
    reveal_strlit("\t");
    reveal_strlit("  ");
    assert("\t"@ =~= seq!['\t']);
    assert("  "@ =~= seq![' ', ' ']);
    let tab = seq!['\t'] + s;
    lemma_replaced_behind(seq!['\t'], s, "\t"@, "  "@, 0);
    assert(tab.subrange(0, 1) =~= "\t"@);
    assert forall|c: char| c != '\t' implies #[trigger] without_tabs(seq![c] + s) == seq![c]
        + without_tabs(s) by {
        let all = seq![c] + s;
        lemma_replaced_behind(seq![c], s, "\t"@, "  "@, 0);
        assert(all.subrange(0, 1)[0] == c);
    }
}

proof fn lemma_replaced_behind(
    head: Seq<char>,
    s: Seq<char>,
    part: Seq<char>,
    with: Seq<char>,
    i: int,
)
    requires
        0 <= i <= s.len(),
        part.len() > 0,
    ensures
        replaced(head + s, part, with, head.len() + i) == replaced(s, part, with, i),
    decreases s.len() - i,
{
    let all = head + s;
    if i < s.len() {
        if i + part.len() <= s.len() {
            assert(all.subrange(head.len() + i, head.len() + i + part.len()) =~= s.subrange(
                i,
                i + part.len(),
            ));
        }
        if occurs_at(s, part, i) {
            lemma_replaced_behind(head, s, part, with, i + part.len());
        } else {
            lemma_replaced_behind(head, s, part, with, i + 1);
        }
    } else {
        assert(all.skip(head.len() + i) =~= s.skip(i));
    }
}

/// An attribute that is set is there and no longer taken away; one that is unset
/// the other way round. Colors and other attributes stay.
pub proof fn lemma_attributes_are_set_and_unset(style: Style, m: Modifier)
    ensures
        ({
            let on = style.with_modifier(m);
            let off = style.without_modifier(m);
            &&& m.bold ==> on.add_modifier.bold && !on.sub_modifier.bold && !off.add_modifier.bold
                && off.sub_modifier.bold
            &&& m.dim ==> on.add_modifier.dim && !on.sub_modifier.dim && !off.add_modifier.dim
                && off.sub_modifier.dim
            &&& m.italic ==> on.add_modifier.italic && !on.sub_modifier.italic
                && !off.add_modifier.italic && off.sub_modifier.italic
            &&& m.underlined ==> on.add_modifier.underlined && !on.sub_modifier.underlined
                && !off.add_modifier.underlined && off.sub_modifier.underlined
            &&& m.reversed ==> on.add_modifier.reversed && !on.sub_modifier.reversed
                && !off.add_modifier.reversed && off.sub_modifier.reversed
            &&& !m.bold ==> on.add_modifier.bold == style.add_modifier.bold
                && off.add_modifier.bold == style.add_modifier.bold
            &&& !m.dim ==> on.add_modifier.dim == style.add_modifier.dim && off.add_modifier.dim
                == style.add_modifier.dim
            &&& !m.italic ==> on.add_modifier.italic == style.add_modifier.italic
                && off.add_modifier.italic == style.add_modifier.italic
            &&& !m.underlined ==> on.add_modifier.underlined == style.add_modifier.underlined
                && off.add_modifier.underlined == style.add_modifier.underlined
            &&& !m.reversed ==> on.add_modifier.reversed == style.add_modifier.reversed
                && off.add_modifier.reversed == style.add_modifier.reversed
            &&& on.fg == style.fg && on.bg == style.bg
            &&& off.fg == style.fg && off.bg == style.bg
        }),
{
}

} // verus!
