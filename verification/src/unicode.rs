//! What outside crates say of text: display widths, word wrapping and byte
//! sizes.
use crate::text;
use vstd::prelude::*;
use vstd::string::*;

verus! {

/// The number of terminal columns that a string takes up.
pub uninterp spec fn str_width(s: Seq<char>) -> nat;

/// The number of terminal columns that a character takes up on its own, unless
/// it is a control character.
pub uninterp spec fn char_columns(c: char) -> Option<usize>;

/// The number of terminal columns that a character takes up on its own; zero
/// for a control character.
pub open spec fn char_width(c: char) -> nat {
    match char_columns(c) {
        Some(columns) => columns as nat,
        None => 0,
    }
}

/// Calls `unicode_width::UnicodeWidthStr::width`, which sums up the columns of
/// a string with regard to sequences that are drawn as one; nothing takes up
/// no column.
#[verifier::external_body]
pub(crate) fn display_width(s: &str) -> (r: usize)
    ensures
        r == str_width(s@),
        s@.len() == 0 ==> r == 0,
{
    unicode_width::UnicodeWidthStr::width(s)
}

/// Calls `unicode_width::UnicodeWidthChar::width`. No character is wider than
/// three columns.
#[verifier::external_body]
fn columns_of(c: char) -> (r: Option<usize>)
    ensures
        r == char_columns(c),
        r matches Some(columns) ==> columns <= 3,
{
    unicode_width::UnicodeWidthChar::width(c)
}

/// The number of terminal columns that a character takes up on its own.
pub(crate) fn display_char_width(c: char) -> (r: usize)
    ensures
        r == char_width(c),
        r <= 3,
{
    match columns_of(c) {
        Some(columns) => columns,
        None => 0,
    }
}

/// A number of bytes as it is displayed, such as `1.5 KiB`.
pub uninterp spec fn byte_size_text(bytes: u64) -> Seq<char>;

/// Calls `bytesize::ByteSize::b` and displays it with its default format.
#[verifier::external_body]
pub(crate) fn byte_size(bytes: u64) -> (r: String)
    ensures
        r@ == byte_size_text(bytes),
{
    bytesize::ByteSize::b(bytes).to_string()
}

/// A text with line breaks in place of some of its spaces, so that lines take
/// up at most `width` columns where their words allow it.
pub uninterp spec fn wrapped_words(s: Seq<char>, width: usize) -> Seq<char>;

/// Wraps text with `bwrap::EasyWrapper`, whose `new` refuses no width but zero
/// and whose `wrap`, in its default style, has a buffer of the size of the
/// text, which always suffices. Nothing wraps to nothing.
#[verifier::external_body]
pub(crate) fn wrap_words(s: &str, width: usize) -> (r: String)
    requires
        width > 0,
    ensures
        r@ == wrapped_words(s@, width),
        s@.len() == 0 ==> r@.len() == 0,
{
    let mut wrapper = bwrap::EasyWrapper::new(s, width).expect("bwrap init");
    String::from(wrapper.wrap().expect("bwrap wrap"))
}

/// The characters of a text as a reader sees them, each made up of one or more
/// code points.
pub uninterp spec fn grapheme_clusters(s: Seq<char>) -> Seq<Seq<char>>;

/// Calls `unicode_segmentation::UnicodeSegmentation::graphemes` for extended
/// clusters. They make up the text, and none is empty.
#[verifier::external_body]
pub(crate) fn graphemes(s: &str) -> (r: Vec<String>)
    ensures
        text::views(r@) == grapheme_clusters(s@),
        text::concat(text::views(r@)) == s@,
        forall|i: int| 0 <= i < r@.len() ==> (#[trigger] r@[i])@.len() > 0,
{
    unicode_segmentation::UnicodeSegmentation::graphemes(s, true).map(String::from).collect()
}

/// A text in lower case.
pub uninterp spec fn lower_text(s: Seq<char>) -> Seq<char>;

/// The characters that a character has in lower case; mostly one.
pub uninterp spec fn lower_char(c: char) -> Seq<char>;

pub open spec fn is_ascii(s: Seq<char>) -> bool {
    forall|i: int| 0 <= i < s.len() ==> (#[trigger] s[i]) <= '\u{7f}'
}

/// A letter of the English alphabet in lower case; other characters stay.
pub open spec fn ascii_lower(c: char) -> char {
    if 'A' <= c && c <= 'Z' {
        (c as int + 32) as char
    } else {
        c
    }
}

/// `str::to_lowercase` gives a text in lower case. Of a text in ASCII it only
/// changes the letters `A` to `Z`.
#[verifier::external_body]
pub(crate) fn to_lower(s: &str) -> (r: String)
    ensures
        r@ == lower_text(s@),
        is_ascii(s@) ==> r@ == Seq::new(s@.len(), |i: int| ascii_lower(s@[i])),
{
    s.to_lowercase()
}

/// `char::to_lowercase` gives the characters that a character has in lower
/// case, at least one.
#[verifier::external_body]
pub(crate) fn char_to_lower(c: char) -> (r: Vec<char>)
    ensures
        r@ == lower_char(c),
        r@.len() > 0,
{
    c.to_lowercase().collect()
}

/// Whether a text holds nothing but ASCII.
pub fn all_ascii(chars: &Vec<char>) -> (r: bool)
    ensures
        r == is_ascii(chars@),
{
    for i in 0..chars.len()
        invariant
            forall|j: int| 0 <= j < i ==> (#[trigger] chars@[j]) <= '\u{7f}',
    {
        let c: char = chars[i];
        if c > '\u{7f}' {
            assert(!(chars@[i as int] <= '\u{7f}'));
            return false;
        }
    }
    true
}

/// How many of the characters from `i` on fit, when those before take up `used`
/// columns of `max`.
pub open spec fn fitting(clusters: Seq<Seq<char>>, i: int, used: int, max: int) -> int
    decreases clusters.len() - i,
{
    if 0 <= i < clusters.len() && used + str_width(clusters[i]) <= max {
        fitting(clusters, i + 1, used + str_width(clusters[i]), max)
    } else {
        i
    }
}

/// How many of the characters from `i` on stand within the first `offset`
/// columns.
pub open spec fn hidden(clusters: Seq<Seq<char>>, i: int, offset: int) -> int
    decreases clusters.len() - i,
{
    if 0 <= i < clusters.len() && str_width(clusters[i]) <= offset {
        hidden(clusters, i + 1, offset - str_width(clusters[i]))
    } else {
        i
    }
}

/// A text without what stands within its first `offset` columns.
pub open spec fn scrolled(s: Seq<char>, offset: int) -> Seq<char> {
    let clusters = grapheme_clusters(s);
    text::concat(clusters.skip(hidden(clusters, 0, offset)))
}

/// The longest start of a text that takes up at most `max` columns, with
/// characters as a reader sees them kept whole.
pub open spec fn truncated(s: Seq<char>, max: int) -> Seq<char> {
    let clusters = grapheme_clusters(s);
    text::concat(clusters.take(fitting(clusters, 0, 0, max)))
}

/// Cut a text so that it takes up at most `max` columns.
pub fn truncate(s: &str, max: usize) -> (r: String)
    ensures
        r@ == truncated(s@, max as int),
{
    let clusters = graphemes(s);
    let ghost all = grapheme_clusters(s@);
    let mut out = String::new();
    let mut used: usize = 0;
    let mut i: usize = 0;
    assert(all.take(0) =~= Seq::empty());
    while i < clusters.len()
        invariant
            text::views(clusters@) == all,
            i <= clusters@.len(),
            used <= max,
            out@ == text::concat(all.take(i as int)),
            fitting(all, i as int, used as int, max as int) == fitting(all, 0, 0, max as int),
        ensures
            out@ == text::concat(all.take(fitting(all, 0, 0, max as int))),
        decreases clusters@.len() - i,
    {
        let width: usize = display_width(clusters[i].as_str());
        assert(all[i as int] == clusters@[i as int]@);
        if width > max - used {
            break;
        }
        used += width;
        out.append(clusters[i].as_str());
        assert(all.take(i + 1).drop_last() =~= all.take(i as int));
        i += 1;
    }
    out
}

/// Leave out what stands within the first `offset` columns of a text.
pub fn trim_offset(s: &str, offset: usize) -> (r: String)
    ensures
        r@ == scrolled(s@, offset as int),
{
    let clusters = graphemes(s);
    let ghost all = grapheme_clusters(s@);
    let mut left: usize = offset;
    let mut i: usize = 0;
    while i < clusters.len()
        invariant
            text::views(clusters@) == all,
            i <= clusters@.len(),
            hidden(all, i as int, left as int) == hidden(all, 0, offset as int),
        ensures
            i <= clusters@.len(),
            i == hidden(all, 0, offset as int),
        decreases clusters@.len() - i,
    {
        let width: usize = display_width(clusters[i].as_str());
        assert(all[i as int] == clusters@[i as int]@);
        if width > left {
            break;
        }
        left -= width;
        i += 1;
    }
    let first: usize = i;
    let mut out = String::new();
    assert(all.subrange(first as int, first as int) =~= Seq::empty());
    for k in first..clusters.len()
        invariant
            first <= clusters@.len(),
            text::views(clusters@) == all,
            out@ == text::concat(all.subrange(first as int, k as int)),
    {
        out.append(clusters[k].as_str());
        assert(all[k as int] == clusters@[k as int]@);
        assert(all.subrange(first as int, k + 1).drop_last() =~= all.subrange(
            first as int,
            k as int,
        ));
    }
    assert(all.subrange(first as int, all.len() as int) =~= all.skip(first as int));
    out
}

/// The columns of the first clusters.
pub open spec fn clusters_width(clusters: Seq<Seq<char>>, n: int) -> int
    decreases n,
{
    if n <= 0 {
        0
    } else {
        clusters_width(clusters, n - 1) + str_width(clusters[n - 1])
    }
}

proof fn lemma_fitting(clusters: Seq<Seq<char>>, i: int, used: int, max: int)
    requires
        0 <= i <= clusters.len(),
        used == clusters_width(clusters, i) <= max,
    ensures
        ({
            let n = fitting(clusters, i, used, max);
            &&& i <= n <= clusters.len()
            &&& clusters_width(clusters, n) <= max
            &&& n < clusters.len() ==> clusters_width(clusters, n + 1) > max
        }),
    decreases clusters.len() - i,
{
    if i < clusters.len() && used + str_width(clusters[i]) <= max {
        lemma_fitting(clusters, i + 1, used + str_width(clusters[i]), max);
    }
}

/// A text is cut between two characters, as late as it fits: what is left is
/// not too wide, and one more character would be.
pub proof fn lemma_texts_are_cut_where_they_stop_fitting(s: Seq<char>, max: int)
    requires
        0 <= max,
    ensures
        ({
            let clusters = grapheme_clusters(s);
            exists|n: int|
                {
                    &&& 0 <= n <= clusters.len()
                    &&& truncated(s, max) == text::concat(#[trigger] clusters.take(n))
                    &&& clusters_width(clusters, n) <= max
                    &&& n < clusters.len() ==> clusters_width(clusters, n + 1) > max
                }
        }),
{
    let clusters = grapheme_clusters(s);
    lemma_fitting(clusters, 0, 0, max);
    let n = fitting(clusters, 0, 0, max);
    assert(truncated(s, max) == text::concat(clusters.take(n)));
}

proof fn lemma_hidden(clusters: Seq<Seq<char>>, i: int, offset: int)
    requires
        0 <= i <= clusters.len(),
        0 <= offset,
    ensures
        ({
            let n = hidden(clusters, i, offset);
            let all = offset + clusters_width(clusters, i);
            &&& i <= n <= clusters.len()
            &&& clusters_width(clusters, n) <= all
            &&& n < clusters.len() ==> clusters_width(clusters, n + 1) > all
        }),
    decreases clusters.len() - i,
{
    if i < clusters.len() && str_width(clusters[i]) <= offset {
        lemma_hidden(clusters, i + 1, offset - str_width(clusters[i]));
    }
}

/// Scrolled to the right, a text starts behind the characters that lie wholly
/// before the offset.
pub proof fn lemma_texts_start_behind_the_offset(s: Seq<char>, offset: int)
    requires
        0 <= offset,
    ensures
        ({
            let clusters = grapheme_clusters(s);
            exists|n: int|
                {
                    &&& 0 <= n <= clusters.len()
                    &&& scrolled(s, offset) == text::concat(#[trigger] clusters.skip(n))
                    &&& clusters_width(clusters, n) <= offset
                    &&& n < clusters.len() ==> clusters_width(clusters, n + 1) > offset
                }
        }),
{
    let clusters = grapheme_clusters(s);
    lemma_hidden(clusters, 0, offset);
    let n = hidden(clusters, 0, offset);
    assert(scrolled(s, offset) == text::concat(clusters.skip(n)));
}

/// Lower case changes the capital letters of the English alphabet, each to its
/// own small letter, and is kept by a second change.
pub proof fn lemma_small_letters(c: char, d: char)
    ensures
        ascii_lower(ascii_lower(c)) == ascii_lower(c),
        !('A' <= c && c <= 'Z') ==> ascii_lower(c) == c,
        'A' <= c && c <= 'Z' ==> 'a' <= ascii_lower(c) && ascii_lower(c) <= 'z',
        'A' <= c && c <= 'Z' && 'A' <= d && d <= 'Z' ==> ascii_lower(c) as int - ascii_lower(
            d,
        ) as int == c as int - d as int,
{
}

} // verus!
