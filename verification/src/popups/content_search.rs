//! The search within the file that is shown.
use crate::components::{
    visibility_blocking, Command, CommandBlocking, CommandInfo, EventState, Key, KeyPress,
    ScrollType,
};
use crate::popups::match_list::{self, Hit, HitView, MatchList, MatchView, SearchRequest};
use crate::text;
use crate::unicode::{self, all_ascii, graphemes, to_lower};
use vstd::prelude::*;
use vstd::string::*;

verus! {

/// The size of the popup in columns and rows.
pub const MAX_WIDTH: u16 = 80;

pub const MAX_HEIGHT: u16 = 24;

// ------------------------------------------------------------------ matching

/// Runs of `len` positions, one after the other.
pub open spec fn runs(starts: Seq<int>, len: int) -> Seq<usize> {
    Seq::new(
        (starts.len() * len) as nat,
        |i: int| (starts[i / len] + i % len) as usize,
    )
}

/// Where a list of characters stands in another from position `i` on;
/// occurrences do not overlap.
pub open spec fn windows(s: Seq<Seq<char>>, part: Seq<Seq<char>>, i: int) -> Seq<int>
    decreases s.len() - i,
{
    if part.len() == 0 || i < 0 || i + part.len() > s.len() {
        Seq::empty()
    } else if s.subrange(i, i + part.len()) == part {
        seq![i] + windows(s, part, i + part.len())
    } else {
        windows(s, part, i + 1)
    }
}

/// Characters in lower case, each on its own.
pub open spec fn lowered(parts: Seq<Seq<char>>, n: int) -> Seq<char>
    decreases n,
{
    if n <= 0 {
        Seq::empty()
    } else {
        lowered(parts, n - 1) + unicode::lower_text(parts[n - 1])
    }
}

/// The characters of a line in lower case.
pub open spec fn lower_clusters(line: Seq<char>) -> Seq<Seq<char>> {
    let parts = unicode::grapheme_clusters(line);
    unicode::grapheme_clusters(lowered(parts, parts.len() as int))
}

pub open spec fn unless_empty(found: Seq<usize>) -> Option<Seq<usize>> {
    if found.len() > 0 {
        Some(found)
    } else {
        None
    }
}

/// Which characters of a line belong to a match. `lower` is the line in lower
/// case and `needle` the query in lower case.
pub open spec fn matched(line: Seq<char>, lower: Seq<char>, needle: Seq<char>) -> Option<
    Seq<usize>,
> {
    if needle.len() == 0 {
        None
    } else if unicode::is_ascii(line) && unicode::is_ascii(needle) {
        unless_empty(runs(text::matches_from(lower, needle, 0), needle.len() as int))
    } else {
        let part = unicode::grapheme_clusters(needle);
        unless_empty(runs(windows(lower_clusters(line), part, 0), part.len() as int))
    }
}

proof fn lemma_runs_push(starts: Seq<int>, len: int, start: int)
    requires
        len > 0,
    ensures
        runs(starts.push(start), len) == runs(starts, len) + Seq::new(
            len as nat,
            |j: int| (start + j) as usize,
        ),
{
    let n = starts.len() as int;
    let all = runs(starts.push(start), len);
    let sum = runs(starts, len) + Seq::new(len as nat, |j: int| (start + j) as usize);
    assert((n + 1) * len == n * len + len) by (nonlinear_arith);
    assert(0 <= n * len) by (nonlinear_arith)
        requires
            0 <= n,
            0 < len,
    ;
    assert forall|i: int| 0 <= i < all.len() implies all[i] == sum[i] by {
        if i < n * len {
            assert(0 <= i / len < n) by (nonlinear_arith)
                requires
                    0 <= i < n * len,
                    0 < len,
            ;
        } else {
            let j = i - n * len;
            assert(i / len == n && i % len == j) by (nonlinear_arith)
                requires
                    i == n * len + j,
                    0 <= j < len,
            ;
        }
    }
    assert(all =~= sum);
}

fn push_run(out: &mut Vec<usize>, start: usize, len: usize)
    requires
        start + len <= usize::MAX,
    ensures
        final(out)@ == old(out)@ + Seq::new(len as nat, |j: int| (start + j) as usize),
{
    let ghost before = out@;
    for j in 0..len
        invariant
            start + len <= usize::MAX,
            out@ == before + Seq::new(j as nat, |k: int| (start + k) as usize),
    {
        out.push(start + j);
        assert(out@ =~= before + Seq::new((j + 1) as nat, |k: int| (start + k) as usize));
    }
}

fn spread(starts: &Vec<usize>, len: usize) -> (r: Vec<usize>)
    requires
        len > 0,
        forall|i: int| 0 <= i < starts@.len() ==> #[trigger] starts@[i] + len <= usize::MAX,
    ensures
        r@ == runs(text::ints(starts@), len as int),
{
    let mut out: Vec<usize> = Vec::new();
    assert(out@ =~= runs(text::ints(starts@.take(0)), len as int)) by {
        assert(text::ints(starts@.take(0)).len() * len == 0);
    }
    for i in 0..starts.len()
        invariant
            len > 0,
            forall|i: int| 0 <= i < starts@.len() ==> #[trigger] starts@[i] + len <= usize::MAX,
            out@ == runs(text::ints(starts@.take(i as int)), len as int),
    {
        proof {
            lemma_runs_push(text::ints(starts@.take(i as int)), len as int, starts@[i as int] as int);
            assert(text::ints(starts@.take(i + 1)) =~= text::ints(starts@.take(i as int)).push(
                starts@[i as int] as int,
            ));
        }
        push_run(&mut out, starts[i], len);
    }
    assert(starts@.take(starts@.len() as int) =~= starts@);
    out
}

fn same_window(s: &Vec<String>, part: &Vec<String>, i: usize) -> (r: bool)
    requires
        i + part@.len() <= s@.len(),
    ensures
        r == (text::views(s@).subrange(i as int, i + part@.len()) == text::views(part@)),
{
    let n: usize = s.len();
    for j in 0..part.len()
        invariant
            n == s@.len(),
            i + part@.len() <= n,
            forall|k: int| 0 <= k < j ==> (#[trigger] part@[k])@ == s@[i + k]@,
    {
        if !text::same(s[i + j].as_str(), part[j].as_str()) {
            assert(text::views(s@).subrange(i as int, i + part@.len())[j as int] != text::views(
                part@,
            )[j as int]);
            return false;
        }
    }
    assert(text::views(s@).subrange(i as int, i + part@.len()) =~= text::views(part@));
    true
}

/// Where a list of characters stands in another, and over which positions it
/// runs.
pub fn cluster_matches(s: &Vec<String>, part: &Vec<String>) -> (r: Vec<usize>)
    requires
        part@.len() > 0,
    ensures
        r@ == runs(windows(text::views(s@), text::views(part@), 0), part@.len() as int),
{
    let ghost sv = text::views(s@);
    let ghost pv = text::views(part@);
    let mut starts: Vec<usize> = Vec::new();
    let n: usize = s.len();
    let len: usize = part.len();
    let mut i: usize = 0;
    assert(text::ints(starts@) + windows(sv, pv, 0) =~= windows(sv, pv, 0));
    while len <= n && i <= n - len
        invariant
            n == s@.len(),
            len == part@.len(),
            len > 0,
            i <= n,
            sv == text::views(s@),
            pv == text::views(part@),
            text::ints(starts@) + windows(sv, pv, i as int) == windows(sv, pv, 0),
            forall|k: int| 0 <= k < starts@.len() ==> #[trigger] starts@[k] + len <= n,
        decreases n - i,
    {
        let ghost before = text::ints(starts@);
        if same_window(s, part, i) {
            starts.push(i);
            assert(text::ints(starts@) =~= before.push(i as int));
            assert(before + (seq![i as int] + windows(sv, pv, i + len)) =~= before.push(i as int)
                + windows(sv, pv, i + len));
            i += len;
        } else {
            i += 1;
        }
    }
    assert(windows(sv, pv, i as int) =~= Seq::empty());
    assert(text::ints(starts@) =~= windows(sv, pv, 0));
    spread(&starts, len)
}

/// The characters of a line in lower case.
fn lower_graphemes(line: &str) -> (r: Vec<String>)
    ensures
        text::views(r@) == lower_clusters(line@),
{
    let parts = graphemes(line);
    let ghost all = text::views(parts@);
    let mut out = String::new();
    assert(out@ =~= lowered(all, 0));
    for i in 0..parts.len()
        invariant
            all == text::views(parts@),
            out@ == lowered(all, i as int),
    {
        assert(all[i as int] == parts@[i as int]@);
        let small = to_lower(parts[i].as_str());
        out.append(small.as_str());
    }
    graphemes(out.as_str())
}

pub open spec fn opt_usizes(v: Option<Vec<usize>>) -> Option<Seq<usize>> {
    match v {
        Some(v) => Some(v@),
        None => None,
    }
}

/// Which characters of a line belong to a match of a query, whatever their case.
/// `line_lower` is the line in lower case and `needle` the query in lower case.
pub fn substring_match_indices(line: &str, line_lower: &str, needle: &str) -> (r: Option<
    Vec<usize>,
>)
    requires
        unicode::is_ascii(line@) ==> unicode::is_ascii(line_lower@),
    ensures
        opt_usizes(r) == matched(line@, line_lower@, needle@),
{
    let wanted = text::chars_of(needle);
    if wanted.len() == 0 {
        return None;
    }
    let found = if all_ascii(&text::chars_of(line)) && all_ascii(&wanted) {
        let lower = text::chars_of(line_lower);
        let starts = text::match_indices(&lower, &wanted);
        proof {
            text::lemma_matches_fit(line_lower@, needle@, 0);
            assert forall|i: int| 0 <= i < starts@.len() implies #[trigger] starts@[i]
                + wanted@.len() <= usize::MAX by {
                assert(text::ints(starts@)[i] == starts@[i]);
                assert(lower@.len() <= usize::MAX) by {
                    assert(lower.len() == lower@.len());
                }
            }
        }
        spread(&starts, wanted.len())
    } else {
        let parts = graphemes(needle);
        proof {
            assert(text::views(parts@).len() == parts@.len());
            if parts@.len() == 0 {
                assert(text::concat(text::views(parts@)) =~= Seq::empty());
            }
        }
        cluster_matches(&lower_graphemes(line), &parts)
    };
    if found.len() > 0 {
        Some(found)
    } else {
        None
    }
}

/// The lines out of the first `n` candidates that hold the query.
pub open spec fn hits(
    candidates: Seq<usize>,
    contents: Seq<Seq<char>>,
    lower: Seq<Seq<char>>,
    needle: Seq<char>,
    n: int,
) -> Seq<HitView>
    decreases n,
{
    if n <= 0 {
        Seq::empty()
    } else {
        let rest = hits(candidates, contents, lower, needle, n - 1);
        let index = candidates[n - 1];
        match matched(contents[index as int], lower[index as int], needle) {
            Some(matches) => rest.push(HitView { index, matches }),
            None => rest,
        }
    }
}

/// Whether lines and their copies in lower case belong together.
pub open spec fn paired(contents: Seq<Seq<char>>, lower: Seq<Seq<char>>) -> bool {
    &&& contents.len() == lower.len()
    &&& forall|i: int|
        0 <= i < contents.len() ==> (unicode::is_ascii(#[trigger] contents[i]) ==> unicode::is_ascii(
            lower[i],
        ))
}

/// Lines in lower case.
pub open spec fn lower_copies(lines: Seq<Seq<char>>) -> Seq<Seq<char>> {
    Seq::new(lines.len(), |i: int| unicode::lower_text(lines[i]))
}

/// Look for a query, given in lower case, in some lines.
pub fn search_lines(
    candidates: &Vec<usize>,
    contents: &Vec<String>,
    lower: &Vec<String>,
    needle: &str,
) -> (r: Vec<Hit>)
    requires
        paired(text::views(contents@), text::views(lower@)),
        forall|i: int| 0 <= i < candidates@.len() ==> #[trigger] candidates@[i] < contents@.len(),
    ensures
        text::views(r@) == hits(
            candidates@,
            text::views(contents@),
            text::views(lower@),
            needle@,
            candidates@.len() as int,
        ),
{
    let ghost cv = text::views(contents@);
    let ghost lv = text::views(lower@);
    let mut out: Vec<Hit> = Vec::new();
    assert(text::views(out@) =~= hits(candidates@, cv, lv, needle@, 0));
    for i in 0..candidates.len()
        invariant
            cv == text::views(contents@),
            lv == text::views(lower@),
            paired(cv, lv),
            forall|i: int|
                0 <= i < candidates@.len() ==> #[trigger] candidates@[i] < contents@.len(),
            text::views(out@) == hits(candidates@, cv, lv, needle@, i as int),
    {
        let index: usize = candidates[i];
        assert(cv[index as int] == contents@[index as int]@);
        assert(lv[index as int] == lower@[index as int]@);
        match substring_match_indices(contents[index].as_str(), lower[index].as_str(), needle) {
            Some(matches) => {
                let hit = Hit { index, matches };
                proof {
                    text::lemma_views_push(out@, hit);
                }
                out.push(hit);
            },
            None => {},
        }
    }
    out
}

/// Look for a query in some lines, whatever its case.
pub fn search_contents(request: &SearchRequest, contents: &Vec<String>, lower: &Vec<String>) -> (r:
    Vec<Hit>)
    requires
        paired(text::views(contents@), text::views(lower@)),
        forall|i: int|
            0 <= i < request.candidates@.len() ==> #[trigger] request.candidates@[i]
                < contents@.len(),
    ensures
        text::views(r@) == hits(
            request.candidates@,
            text::views(contents@),
            text::views(lower@),
            unicode::lower_text(request.query@),
            request.candidates@.len() as int,
        ),
{
    let needle = to_lower(request.query.as_str());
    search_lines(&request.candidates, contents, lower, needle.as_str())
}

// --------------------------------------------------------------------- popup

/// The line that was chosen, with all lines that hold the query.
#[derive(Debug, PartialEq, Eq)]
pub struct ContentSearchSelected {
    pub query: String,
    pub line: usize,
    pub matching_lines: Vec<usize>,
}

/// The search within the file that is shown.
#[derive(Debug)]
pub struct ContentSearchPopup {
    pub list: MatchList,
    /// the lines in lower case
    pub contents_lower: Vec<String>,
}

/// What an event led to.
#[derive(Debug)]
pub struct SearchEvent {
    pub state: EventState,
    pub selected: Option<ContentSearchSelected>,
    pub request: Option<SearchRequest>,
}

/// What a key press asks for.
#[derive(Clone, Copy, Debug, PartialEq, Eq, Structural)]
pub enum SearchIntent {
    Close,
    Down,
    Up,
    Choose,
    Nothing,
}

/// What a key press asks for.
pub open spec fn intent(press: KeyPress) -> SearchIntent {
    if press.has(Key::ExitPopup) {
        SearchIntent::Close
    } else if press.has(Key::MoveDown) || press.has(Key::PopupDown) {
        SearchIntent::Down
    } else if press.has(Key::MoveUp) || press.has(Key::PopupUp) {
        SearchIntent::Up
    } else if press.has(Key::Enter) {
        SearchIntent::Choose
    } else {
        SearchIntent::Nothing
    }
}

fn key_intent(press: &KeyPress) -> (r: SearchIntent)
    ensures
        r == intent(*press),
{
    if press.is(Key::ExitPopup) {
        SearchIntent::Close
    } else if press.is(Key::MoveDown) || press.is(Key::PopupDown) {
        SearchIntent::Down
    } else if press.is(Key::MoveUp) || press.is(Key::PopupUp) {
        SearchIntent::Up
    } else if press.is(Key::Enter) {
        SearchIntent::Choose
    } else {
        SearchIntent::Nothing
    }
}

/// The list after a key press.
pub open spec fn keyed(list: MatchView, intent: SearchIntent) -> MatchView {
    match intent {
        SearchIntent::Close | SearchIntent::Choose => list.closed(),
        SearchIntent::Down => MatchView { selection: list.moved(ScrollType::Down), ..list },
        SearchIntent::Up => MatchView { selection: list.moved(ScrollType::Up), ..list },
        SearchIntent::Nothing => list,
    }
}

/// Whether what was chosen is the hit that is selected.
pub open spec fn is_selected(list: MatchView, chosen: Option<ContentSearchSelected>) -> bool {
    if list.selection < list.filtered.len() && list.query is Some {
        &&& chosen matches Some(c)
        &&& c.query@ == list.query->0
        &&& c.line == list.filtered[list.selection].index
        &&& c.matching_lines@ == match_list::hit_indices(list.filtered)
    } else {
        chosen is None
    }
}

impl ContentSearchPopup {
    /// What holds of every popup: it keeps its lines in lower case too.
    pub open spec fn wf(self) -> bool {
        &&& self.list@.wf()
        &&& text::views(self.contents_lower@) == lower_copies(self.list@.contents)
        &&& paired(self.list@.contents, text::views(self.contents_lower@))
    }

    /// A popup that is not open.
    pub fn new() -> (r: ContentSearchPopup)
        ensures
            r.wf(),
            !r.list.visible,
            r.list.contents@.len() == 0,
            r.list.filtered@.len() == 0,
            r.list.query is None,
            r.list.filtered_query is None,
            r.list.selection == 0,
            r.list.search_generation == 0,
            r.contents_lower@.len() == 0,
    {
        let r = ContentSearchPopup { list: MatchList::new(), contents_lower: Vec::new() };
        assert(text::views(r.list.contents@).len() == 0);
        assert(text::views(r.list.filtered@).len() == 0);
        assert(text::views(r.contents_lower@) =~= lower_copies(r.list@.contents));
        r
    }

    /// Look for a query.
    pub fn search(&self, request: &SearchRequest) -> (r: Vec<Hit>)
        requires
            self.wf(),
            forall|i: int|
                0 <= i < request.candidates@.len() ==> #[trigger] request.candidates@[i]
                    < self.list.contents@.len(),
        ensures
            text::views(r@) == hits(
                request.candidates@,
                self.list@.contents,
                lower_copies(self.list@.contents),
                unicode::lower_text(request.query@),
                request.candidates@.len() as int,
            ),
    {
        search_contents(request, &self.list.contents, &self.contents_lower)
    }

    /// Take in the hits of a search, unless something else was asked since.
    pub fn update(&mut self, generation: u64, query: String, hits: Vec<Hit>)
        requires
            old(self).wf(),
            forall|i: int|
                0 <= i < hits@.len() ==> (#[trigger] hits@[i]).index
                    < old(self).list.contents@.len(),
        ensures
            final(self).wf(),
            final(self).list@ == old(self).list@.found(
                generation,
                query@,
                text::views(hits@),
            ),
            final(self).contents_lower == old(self).contents_lower,
    {
        self.list.update(generation, query, hits);
    }

    /// Open the popup on the lines of a file.
    pub fn open(&mut self, lines: Vec<String>)
        requires
            old(self).wf(),
        ensures
            final(self).wf(),
            final(self).list@ == (MatchView {
                visible: true,
                query: None,
                filtered_query: None,
                contents: text::views(lines@),
                selection: 0,
                filtered: Seq::empty(),
                search_generation: match_list::next_number(old(self).list.search_generation),
            }),
            text::views(final(self).contents_lower@) == lower_copies(text::views(lines@)),
    {
        self.list.visible = true;
        self.list.query = None;
        self.list.filtered_query = None;
        self.list.filtered.clear();
        self.list.selection = 0;
        if !same_lines(&self.list.contents, &lines) {
            self.contents_lower = lower_lines(&lines);
            self.list.contents = lines;
        }
        proof {
            assert(text::views(self.list.filtered@) =~= Seq::empty());
            assert(text::views(lines@).len() == lines@.len());
            assert(lines.len() <= usize::MAX);
            reveal_strlit("");
        }
        self.list.update_query("");
    }

    /// Take in what was typed.
    pub fn update_query(&mut self, text: &str) -> (r: Option<SearchRequest>)
        requires
            old(self).wf(),
        ensures
            final(self).wf(),
            final(self).list@ == old(self).list@.after_typing(text@),
            final(self).contents_lower == old(self).contents_lower,
            match old(self).list@.typed(text@) {
                Some(query) => match_list::is_request(old(self).list@, query, r),
                None => r is None,
            },
    {
        let (_, request) = self.list.update_query(text);
        request
    }

    fn chosen(&self) -> (r: Option<ContentSearchSelected>)
        ensures
            is_selected(self.list@, r),
    {
        if self.list.selection >= self.list.filtered.len() {
            return None;
        }
        match &self.list.query {
            Some(query) => {
                let mut lines: Vec<usize> = Vec::new();
                for i in 0..self.list.filtered.len()
                    invariant
                        lines@ == match_list::hit_indices(self.list@.filtered.take(i as int)),
                {
                    lines.push(self.list.filtered[i].index);
                    assert(lines@ =~= match_list::hit_indices(self.list@.filtered.take(i + 1)));
                }
                assert(self.list@.filtered.take(self.list.filtered@.len() as int)
                    =~= self.list@.filtered);
                Some(
                    ContentSearchSelected {
                        query: query.clone(),
                        line: self.list.filtered[self.list.selection].index,
                        matching_lines: lines,
                    },
                )
            },
            None => None,
        }
    }

    /// React to an event. `press` is the key, if it is one, and `typed` the text
    /// of the input if that used the event.
    pub fn event(&mut self, press: Option<&KeyPress>, typed: Option<&str>) -> (r: SearchEvent)
        requires
            old(self).wf(),
        ensures
            final(self).wf(),
            final(self).contents_lower == old(self).contents_lower,
            r.state == EventState::of(old(self).list.visible),
            if !old(self).list.visible {
                &&& *final(self) == *old(self)
                &&& r.selected is None
                &&& r.request is None
            } else {
                let wish = match press {
                    Some(press) => intent(*press),
                    None => SearchIntent::Nothing,
                };
                let after = keyed(old(self).list@, wish);
                &&& if wish == SearchIntent::Choose {
                    is_selected(old(self).list@, r.selected)
                } else {
                    r.selected is None
                }
                &&& match typed {
                    Some(text) => {
                        &&& final(self).list@ == after.after_typing(text@)
                        &&& match after.typed(text@) {
                            Some(query) => match_list::is_request(after, query, r.request),
                            None => r.request is None,
                        }
                    },
                    None => final(self).list@ == after && r.request is None,
                }
            },
    {
        if !self.list.visible {
            return SearchEvent {
                state: EventState::NotConsumed,
                selected: None,
                request: None,
            };
        }
        let wish = match press {
            Some(press) => key_intent(press),
            None => SearchIntent::Nothing,
        };
        let mut selected = None;
        match wish {
            SearchIntent::Close => self.list.close(),
            SearchIntent::Down => {
                self.list.move_selection(ScrollType::Down);
            },
            SearchIntent::Up => {
                self.list.move_selection(ScrollType::Up);
            },
            SearchIntent::Choose => {
                selected = self.chosen();
                self.list.close();
            },
            SearchIntent::Nothing => {},
        }
        let request = match typed {
            Some(text) => self.update_query(text),
            None => None,
        };
        SearchEvent { state: EventState::Consumed, selected, request }
    }

    pub open spec fn command_list(self, force_all: bool) -> Seq<CommandInfo> {
        if self.list.visible || force_all {
            seq![
                CommandInfo::of(Command::ScrollPopup, true, true),
                CommandInfo::of(Command::ClosePopup, true, true),
            ]
        } else {
            Seq::empty()
        }
    }

    /// Add the commands that the popup offers.
    pub fn commands(&self, out: &mut Vec<CommandInfo>, force_all: bool) -> (r: CommandBlocking)
        ensures
            final(out)@ == old(out)@ + self.command_list(force_all),
            r == if self.list.visible {
                CommandBlocking::Blocking
            } else {
                CommandBlocking::PassingOn
            },
    {
        if self.list.visible || force_all {
            out.push(CommandInfo::new(Command::ScrollPopup, true, true));
            out.push(CommandInfo::new(Command::ClosePopup, true, true));
        }
        assert(out@ =~= old(out)@ + self.command_list(force_all));
        visibility_blocking(self.list.visible)
    }
}

pub(crate) fn same_lines(a: &Vec<String>, b: &Vec<String>) -> (r: bool)
    ensures
        r == (text::views(a@) == text::views(b@)),
{
    let n: usize = a.len();
    if n != b.len() {
        assert(text::views(a@).len() != text::views(b@).len());
        return false;
    }
    for i in 0..n
        invariant
            n == a@.len(),
            n == b@.len(),
            forall|k: int| 0 <= k < i ==> (#[trigger] a@[k])@ == b@[k]@,
    {
        if !text::same(a[i].as_str(), b[i].as_str()) {
            assert(text::views(a@)[i as int] != text::views(b@)[i as int]);
            return false;
        }
    }
    assert(text::views(a@) =~= text::views(b@));
    true
}

fn lower_lines(lines: &Vec<String>) -> (r: Vec<String>)
    ensures
        text::views(r@) == lower_copies(text::views(lines@)),
        paired(text::views(lines@), text::views(r@)),
{
    let mut out: Vec<String> = Vec::new();
    for i in 0..lines.len()
        invariant
            out@.len() == i,
            forall|k: int|
                0 <= k < i ==> (#[trigger] out@[k])@ == unicode::lower_text(lines@[k]@),
            forall|k: int|
                0 <= k < i ==> (unicode::is_ascii(lines@[k]@) ==> unicode::is_ascii(
                    (#[trigger] out@[k])@,
                )),
    {
        let small = to_lower(lines[i].as_str());
        assert(unicode::is_ascii(lines@[i as int]@) ==> unicode::is_ascii(small@));
        out.push(small);
    }
    assert(text::views(out@) =~= lower_copies(text::views(lines@)));
    out
}

// ----------------------------------------------------------------------- laws

proof fn lemma_no_match(s: Seq<char>, part: Seq<char>, i: int, k: int)
    requires
        part.len() > 0,
        0 <= i <= k,
        text::occurs_at(s, part, k),
    ensures
        text::matches_from(s, part, i).len() > 0,
    decreases k - i,
{
    if !text::occurs_at(s, part, i) {
        lemma_no_match(s, part, i + 1, k);
    }
}

proof fn lemma_match_occurs(s: Seq<char>, part: Seq<char>, i: int)
    requires
        0 <= i,
        text::matches_from(s, part, i).len() > 0,
    ensures
        exists|k: int| i <= k && #[trigger] text::occurs_at(s, part, k),
    decreases s.len() - i,
{
    if text::occurs_at(s, part, i) {
    } else {
        lemma_match_occurs(s, part, i + 1);
    }
}

/// Among lines and queries in ASCII, a longer query only matches lines that a
/// shorter one at its start matches. So it is enough to look at those.
pub proof fn lemma_narrowing_loses_nothing(
    line: Seq<char>,
    lower: Seq<char>,
    old: Seq<char>,
    new: Seq<char>,
)
    requires
        unicode::is_ascii(line),
        unicode::is_ascii(new),
        old.len() > 0,
        text::starts(new, old),
        matched(line, lower, new) is Some,
    ensures
        matched(line, lower, old) is Some,
{
    assert(new.subrange(0, old.len() as int) == old);
    assert(unicode::is_ascii(old)) by {
        assert forall|i: int| 0 <= i < old.len() implies (#[trigger] old[i]) <= '\u{7f}' by {
            assert(new.subrange(0, old.len() as int)[i] == new[i]);
        }
    }
    let found = text::matches_from(lower, new, 0);
    assert(found.len() > 0) by {
        if found.len() == 0 {
            assert(found.len() * new.len() == 0) by (nonlinear_arith)
                requires
                    found.len() == 0,
            ;
        }
    }
    lemma_match_occurs(lower, new, 0);
    let k = choose|k: int| 0 <= k && #[trigger] text::occurs_at(lower, new, k);
    assert(lower.subrange(k, k + old.len()) =~= old) by {
        assert forall|i: int| 0 <= i < old.len() implies lower.subrange(k, k + old.len())[i]
            == old[i] by {
            assert(lower.subrange(k, k + new.len())[i] == new[i]);
            assert(new.subrange(0, old.len() as int)[i] == new[i]);
        }
    }
    assert(text::occurs_at(lower, old, k));
    lemma_no_match(lower, old, 0, k);
    let starts = text::matches_from(lower, old, 0);
    assert(starts.len() * old.len() > 0) by (nonlinear_arith)
        requires
            starts.len() > 0,
            old.len() > 0,
    ;
}

proof fn lemma_run_len(starts: Seq<int>, len: int)
    requires
        len > 0,
    ensures
        runs(starts, len).len() > 0 <==> starts.len() > 0,
{
    if starts.len() > 0 {
        assert(starts.len() * len > 0) by (nonlinear_arith)
            requires
                starts.len() > 0,
                len > 0,
        ;
    } else {
        assert(starts.len() * len == 0) by (nonlinear_arith)
            requires
                starts.len() == 0,
        ;
    }
}

/// A line in ASCII matches exactly if the query stands in it, whatever the case of
/// its letters.
pub proof fn lemma_lines_match_what_stands_in_them(
    line: Seq<char>,
    lower: Seq<char>,
    needle: Seq<char>,
)
    requires
        unicode::is_ascii(line),
        unicode::is_ascii(needle),
        needle.len() > 0,
    ensures
        matched(line, lower, needle) is Some <==> exists|k: int|
            0 <= k && k + needle.len() <= lower.len() && #[trigger] lower.subrange(
                k,
                k + needle.len(),
            ) == needle,
        matched(line, lower, Seq::empty()) is None,
{
    let found = text::matches_from(lower, needle, 0);
    lemma_run_len(found, needle.len() as int);
    text::lemma_matches_are_occurrences(lower, needle, 0, 0);
    if matched(line, lower, needle) is Some {
        let k = found[0];
        assert(lower.subrange(k, k + needle.len()) == needle);
    }
    if exists|k: int|
        0 <= k && k + needle.len() <= lower.len() && #[trigger] lower.subrange(k, k + needle.len())
            == needle {
        let k = choose|k: int|
            0 <= k && k + needle.len() <= lower.len() && #[trigger] lower.subrange(
                k,
                k + needle.len(),
            ) == needle;
        text::lemma_matches_are_occurrences(lower, needle, 0, k);
    }
}

/// Every marked letter belongs to a place where the query stands, and the first such
/// place is marked from its first letter on.
pub proof fn lemma_marks_cover_the_query(
    line: Seq<char>,
    lower: Seq<char>,
    needle: Seq<char>,
    i: int,
)
    requires
        unicode::is_ascii(line),
        unicode::is_ascii(needle),
        needle.len() > 0,
        lower.len() <= usize::MAX,
        matched(line, lower, needle) is Some,
        0 <= i < matched(line, lower, needle)->0.len(),
    ensures
        ({
            let marks = matched(line, lower, needle)->0;
            let start = marks[i] - i % (needle.len() as int);
            &&& 0 <= start <= marks[i] < start + needle.len() <= lower.len()
            &&& lower.subrange(start, start + needle.len()) == needle
            &&& lower[marks[i] as int] == needle[i % (needle.len() as int)]
        }),
{
    let n = needle.len() as int;
    let found = text::matches_from(lower, needle, 0);
    let marks = matched(line, lower, needle)->0;
    assert(0 <= i / n < found.len() && 0 <= i % n < n) by (nonlinear_arith)
        requires
            0 <= i < found.len() * n,
            n > 0,
    ;
    text::lemma_matches_are_occurrences(lower, needle, 0, i / n);
    let start = found[i / n];
    assert(marks[i] == (start + i % n) as usize);
    assert(lower.subrange(start, start + n)[i % n] == lower[start + i % n]);
}

/// The hits are the candidates that match, in their order, each with its marks.
pub proof fn lemma_hits_are_the_matching_candidates(
    candidates: Seq<usize>,
    contents: Seq<Seq<char>>,
    lower: Seq<Seq<char>>,
    needle: Seq<char>,
    n: int,
    i: int,
)
    requires
        0 <= n <= candidates.len(),
    ensures
        ({
            let all = hits(candidates, contents, lower, needle, n);
            &&& all.len() <= n
            &&& forall|k: int|
                0 <= k < all.len() ==> candidates.take(n).contains((#[trigger] all[k]).index)
                    && matched(
                    contents[all[k].index as int],
                    lower[all[k].index as int],
                    needle,
                ) == Some(all[k].matches)
            &&& (0 <= i < n && matched(
                contents[candidates[i] as int],
                lower[candidates[i] as int],
                needle,
            ) is Some) ==> match_list::hit_indices(all).contains(candidates[i])
        }),
    decreases n,
{
    let all = hits(candidates, contents, lower, needle, n);
    if n > 0 {
        lemma_hits_are_the_matching_candidates(candidates, contents, lower, needle, n - 1, i);
        let before = hits(candidates, contents, lower, needle, n - 1);
        assert forall|k: int| 0 <= k < all.len() implies candidates.take(n).contains(
            (#[trigger] all[k]).index,
        ) && matched(contents[all[k].index as int], lower[all[k].index as int], needle) == Some(
            all[k].matches,
        ) by {
            if k < before.len() {
                assert(all[k] == before[k]);
                let looked = candidates.take(n - 1);
                let j = choose|j: int| 0 <= j < looked.len() && looked[j] == before[k].index;
                assert(looked[j] == candidates[j]);
                assert(candidates.take(n)[j] == all[k].index);
            } else {
                assert(candidates.take(n)[n - 1] == all[k].index);
            }
        }
        if 0 <= i < n && matched(
            contents[candidates[i] as int],
            lower[candidates[i] as int],
            needle,
        ) is Some {
            let indices = match_list::hit_indices(all);
            if i < n - 1 {
                let old = match_list::hit_indices(before);
                let k = choose|k: int| 0 <= k < old.len() && old[k] == candidates[i];
                assert(indices[k] == candidates[i]);
            } else {
                assert(indices[all.len() - 1] == candidates[i]);
            }
        }
    }
}

/// The keys of the popup, and what is told when a line is chosen: that line, the
/// query, and all lines that match.
pub proof fn lemma_the_selected_line_is_chosen(
    list: MatchView,
    press: KeyPress,
    chosen: Option<ContentSearchSelected>,
)
    requires
        0 <= list.selection < list.filtered.len(),
        list.query is Some,
        is_selected(list, chosen),
    ensures
        press.is_only(Key::Enter) ==> intent(press) == SearchIntent::Choose,
        press.is_only(Key::ExitPopup) ==> intent(press) == SearchIntent::Close,
        press.is_only(Key::MoveDown) ==> keyed(list, intent(press)).selection == list.moved(
            ScrollType::Down,
        ),
        press.is_only(Key::MoveUp) ==> keyed(list, intent(press)).selection == list.moved(
            ScrollType::Up,
        ),
        press.is_only(Key::Enter) || press.is_only(Key::ExitPopup) ==> !keyed(
            list,
            intent(press),
        ).visible,
        chosen matches Some(c) && c.line == list.filtered[list.selection].index && c.query@
            == list.query->0 && c.matching_lines@.len() == list.filtered.len(),
{
}

} // verus!
