//! Finding a text by some of its characters.
use crate::components::{
    visibility_blocking, Command, CommandBlocking, CommandInfo, EventState, Key, KeyPress,
    ScrollType,
};
use crate::popups::content_search::same_lines;
use crate::popups::match_list::{self, Hit, HitView, MatchList, MatchView, SearchRequest};
use crate::sorting::{self, stable_sort, Ordered};
use crate::text;
use fuzzy_matcher::FuzzyMatcher;
use vstd::prelude::*;
use vstd::string::*;

verus! {

/// The size of the popup in columns and rows.
pub const MAX_WIDTH: u16 = 50;

pub const MAX_HEIGHT: u16 = 20;

// ------------------------------------------------------------------ matching

#[verifier::external_type_specification]
#[verifier::external_body]
pub struct ExSkimMatcherV2(fuzzy_matcher::skim::SkimMatcherV2);

/// A matcher, and what it was asked: the texts with their queries.
struct Matcher {
    inner: fuzzy_matcher::skim::SkimMatcherV2,
    asked: Ghost<Seq<(Seq<char>, Seq<char>)>>,
}

/// `SkimMatcherV2::default` makes a matcher that heeds the case of a query only
/// if there is a capital letter in it. It has not been asked anything.
#[verifier::external_body]
fn new_matcher() -> (r: Matcher)
    ensures
        r.asked@ == Seq::<(Seq<char>, Seq<char>)>::empty(),
{
    Matcher { inner: fuzzy_matcher::skim::SkimMatcherV2::default(), asked: Ghost(Seq::empty()) }
}

/// A letter of the English alphabet in lower case; other characters stay.
pub open spec fn folded(c: char) -> char {
    if 'A' <= c && c <= 'Z' {
        (c as int + 32) as char
    } else {
        c
    }
}

/// Whether a query has a capital letter of the English alphabet.
pub open spec fn heeds_case(query: Seq<char>) -> bool {
    exists|i: int| 0 <= i < query.len() && 'A' <= #[trigger] query[i] <= 'Z'
}

pub open spec fn alike(a: char, b: char, case: bool) -> bool {
    a == b || (!case && folded(a) == folded(b))
}

/// Whether the characters of a query, from the `j`-th on, stand in a text, from
/// the `i`-th character on, in their order and with anything between them.
pub open spec fn holds_in_order(
    s: Seq<char>,
    query: Seq<char>,
    case: bool,
    i: int,
    j: int,
) -> bool
    decreases s.len() - i,
{
    if j >= query.len() {
        true
    } else if i < 0 || i >= s.len() {
        false
    } else if alike(s[i], query[j], case) {
        holds_in_order(s, query, case, i + 1, j + 1)
    } else {
        holds_in_order(s, query, case, i + 1, j)
    }
}

/// Whether a query matches a text.
pub open spec fn matches(s: Seq<char>, query: Seq<char>) -> bool {
    holds_in_order(s, query, heeds_case(query), 0, 0)
}

/// Whether a text and a query are short enough for a table with a cell for each
/// pair of their characters.
pub open spec fn fits(s: Seq<char>, query: Seq<char>) -> bool {
    &&& s.len() < 0x7fff_0000
    &&& (s.len() + 1) * (query.len() + 1) <= isize::MAX / 16
}

/// Whether places can be those of characters that a match takes: they rise, lie
/// in the text, and are no more than the query has characters.
pub open spec fn are_marks(taken: Seq<usize>, s: Seq<char>, query: Seq<char>) -> bool {
    &&& taken.len() <= query.len()
    &&& forall|i: int| 0 <= i < taken.len() ==> #[trigger] taken[i] < s.len()
    &&& forall|i: int, j: int| 0 <= i < j < taken.len() ==> #[trigger] taken[i] < #[trigger] taken[j]
}

/// How well a query matches a text, and the characters of the text that the
/// match takes, if it matches at all. A matcher keeps a table between calls that
/// takes part in this, so it also depends on what the matcher was asked before.
pub uninterp spec fn skim_match(
    asked: Seq<(Seq<char>, Seq<char>)>,
    s: Seq<char>,
    query: Seq<char>,
) -> Option<(i64, Seq<usize>)>;

/// `SkimMatcherV2::fuzzy_indices` gives a match if the characters of the query
/// stand in the text in their order. It scores a match and tells which
/// characters of the text it takes, in their order and at most one for each of
/// the query. How it scores, and which it prefers, only has a name: it depends
/// on the text, the query and what this matcher was asked before.
#[verifier::external_body]
fn fuzzy_indices(matcher: &mut Matcher, s: &str, query: &str) -> (r: Option<(i64, Vec<usize>)>)
    requires
        fits(s@, query@),
    ensures
        r is Some == matches(s@, query@),
        r matches Some((_, taken)) ==> are_marks(taken@, s@, query@),
        final(matcher).asked@ == old(matcher).asked@.push((s@, query@)),
        match r {
            Some((score, taken)) => skim_match(old(matcher).asked@, s@, query@) == Some(
                (score, taken@),
            ),
            None => skim_match(old(matcher).asked@, s@, query@) is None,
        },
{
    matcher.inner.fuzzy_indices(s, query)
}

/// A text that matches, with its score.
#[derive(Debug, PartialEq, Eq)]
pub struct Scored {
    pub score: i64,
    pub hit: Hit,
}

/// What a [`Scored`] holds.
#[verifier::ext_equal]
pub struct ScoredView {
    pub score: i64,
    pub hit: HitView,
}

impl View for Scored {
    type V = ScoredView;

    open spec fn view(&self) -> ScoredView {
        ScoredView { score: self.score, hit: self.hit@ }
    }
}

impl Ordered for Scored {
    open spec fn before(self, other: Self) -> bool {
        self.score >= other.score
    }

    proof fn lemma_reflexive(a: Self) {
    }

    proof fn lemma_total(a: Self, b: Self) {
    }

    proof fn lemma_transitive(a: Self, b: Self, c: Self) {
    }

    fn is_before(&self, other: &Self) -> (r: bool) {
        self.score >= other.score
    }
}

pub open spec fn scored_hits(scored: Seq<Scored>) -> Seq<Hit> {
    Seq::new(scored.len(), |i: int| scored[i].hit)
}

/// The hits by their scores, the best first.
pub fn rank(scored: Vec<Scored>) -> (r: Vec<Hit>)
    ensures
        exists|sorted: Seq<Scored>| #[trigger]
            sorting::is_stable_sort(scored@, sorted) && r@ == scored_hits(sorted),
{
    let mut sorted = stable_sort(scored);
    let ghost all = sorted@;
    let n: usize = sorted.len();
    let mut out: Vec<Hit> = Vec::new();
    for i in 0..n
        invariant
            n == all.len(),
            sorted@ == all.skip(i as int),
            out@ == scored_hits(all.take(i as int)),
    {
        let first = sorted.remove(0);
        assert(sorted@ =~= all.skip(i + 1));
        out.push(first.hit);
        assert(out@ =~= scored_hits(all.take(i + 1)));
    }
    assert(all.take(n as int) =~= all);
    out
}

/// The texts out of the first `n` candidates that match.
pub open spec fn matching(
    candidates: Seq<usize>,
    contents: Seq<Seq<char>>,
    query: Seq<char>,
    n: int,
) -> Seq<usize>
    decreases n,
{
    if n <= 0 {
        Seq::empty()
    } else {
        let rest = matching(candidates, contents, query, n - 1);
        if matches(contents[candidates[n - 1] as int], query) {
            rest.push(candidates[n - 1])
        } else {
            rest
        }
    }
}

/// What a matcher was asked about the first `n` candidates.
pub open spec fn asked_of(
    candidates: Seq<usize>,
    contents: Seq<Seq<char>>,
    query: Seq<char>,
    n: int,
) -> Seq<(Seq<char>, Seq<char>)>
    decreases n,
{
    if n <= 0 {
        Seq::empty()
    } else {
        asked_of(candidates, contents, query, n - 1).push(
            (contents[candidates[n - 1] as int], query),
        )
    }
}

/// The first `n` candidates that match, with their scores, if a matcher is asked
/// about one after the other.
pub open spec fn scoring(
    candidates: Seq<usize>,
    contents: Seq<Seq<char>>,
    query: Seq<char>,
    n: int,
) -> Seq<ScoredView>
    decreases n,
{
    if n <= 0 {
        Seq::empty()
    } else {
        let rest = scoring(candidates, contents, query, n - 1);
        let index = candidates[n - 1];
        match skim_match(
            asked_of(candidates, contents, query, n - 1),
            contents[index as int],
            query,
        ) {
            Some((score, taken)) => rest.push(
                ScoredView { score, hit: HitView { index, matches: taken } },
            ),
            None => rest,
        }
    }
}

/// Whether hits are those of a scoring, the best first. Those that score the
/// same keep their order.
pub open spec fn ranked(hits: Seq<Hit>, scoring: Seq<ScoredView>) -> bool {
    exists|scored: Seq<Scored>, sorted: Seq<Scored>| #[trigger]
        sorting::is_stable_sort(scored, sorted) && text::views(scored) == scoring && hits
            == scored_hits(sorted)
}

pub open spec fn scored_indices(scored: Seq<Scored>) -> Seq<usize> {
    Seq::new(scored.len(), |i: int| scored[i].hit.index)
}

proof fn lemma_indices_of_sorted(a: Seq<Scored>, b: Seq<Scored>)
    requires
        a.to_multiset() == b.to_multiset(),
    ensures
        scored_indices(a).to_multiset() == scored_indices(b).to_multiset(),
    decreases a.len(),
{
    broadcast use vstd::seq_lib::group_to_multiset_ensures;

    assert(a.len() == a.to_multiset().len());
    assert(b.len() == b.to_multiset().len());
    if a.len() == 0 {
        assert(scored_indices(a) =~= scored_indices(b));
    } else {
        let x = a.last();
        let n = a.len() - 1;
        assert(a.contains(a[n]));
        assert(b.to_multiset().count(x) > 0);
        assert(b.contains(x));
        let k = choose|k: int| 0 <= k < b.len() && b[k] == x;
        assert(a.remove(n).to_multiset() =~= a.to_multiset().remove(x));
        assert(b.remove(k).to_multiset() =~= b.to_multiset().remove(x));
        lemma_indices_of_sorted(a.remove(n), b.remove(k));
        assert(scored_indices(a).remove(n) =~= scored_indices(a.remove(n)));
        assert(scored_indices(b).remove(k) =~= scored_indices(b.remove(k)));
        let y = x.hit.index;
        assert(scored_indices(a).remove(n).to_multiset() =~= scored_indices(a).to_multiset().remove(
            y,
        ));
        assert(scored_indices(b).remove(k).to_multiset() =~= scored_indices(b).to_multiset().remove(
            y,
        ));
        assert(scored_indices(a).contains(scored_indices(a)[n]));
        assert(scored_indices(b).contains(scored_indices(b)[k]));
        assert(scored_indices(a).to_multiset() =~= scored_indices(a).to_multiset().remove(
            y,
        ).insert(y));
        assert(scored_indices(b).to_multiset() =~= scored_indices(b).to_multiset().remove(
            y,
        ).insert(y));
    }
}

/// Whether a query can be looked for.
pub open spec fn searchable(
    candidates: Seq<usize>,
    contents: Seq<String>,
    query: Seq<char>,
) -> bool {
    &&& forall|i: int| 0 <= i < candidates.len() ==> #[trigger] candidates[i] < contents.len()
    &&& forall|i: int| 0 <= i < contents.len() ==> fits((#[trigger] contents[i])@, query)
}

fn short_enough(s: &str, query_len: usize) -> (r: bool)
    ensures
        r == (s@.len() < 0x7fff_0000 && (s@.len() + 1) * (query_len + 1) <= isize::MAX / 16),
{
    let n: usize = s.unicode_len();
    if n >= 0x7fff_0000 {
        return false;
    }
    let limit: u128 = (isize::MAX / 16) as u128;
    let rows: u128 = n as u128 + 1;
    let columns: u128 = query_len as u128 + 1;
    proof {
        assert(rows * columns <= 0x7fff_0000 * 0x1_0000_0000_0000_0000) by (nonlinear_arith)
            requires
                rows <= 0x7fff_0000,
                columns <= 0x1_0000_0000_0000_0000,
        ;
    }
    rows * columns <= limit
}

/// Whether a query can be looked for: the candidates are among the texts, and
/// the texts are not too long.
pub fn can_search(candidates: &Vec<usize>, contents: &Vec<String>, query: &str) -> (r: bool)
    ensures
        r == searchable(candidates@, contents@, query@),
{
    if !match_list::all_within(candidates, contents.len()) {
        return false;
    }
    let n: usize = query.unicode_len();
    for i in 0..contents.len()
        invariant
            n == query@.len(),
            forall|k: int| 0 <= k < i ==> fits((#[trigger] contents@[k])@, query@),
    {
        if !short_enough(contents[i].as_str(), n) {
            assert(!fits(contents@[i as int]@, query@));
            return false;
        }
    }
    true
}

/// Whether the marks of hits lie in their texts.
pub open spec fn marked_within(hits: Seq<Hit>, contents: Seq<String>, query: Seq<char>) -> bool {
    forall|i: int|
        0 <= i < hits.len() ==> (#[trigger] hits[i]).index < contents.len() && are_marks(
            hits[i].matches@,
            contents[hits[i].index as int]@,
            query,
        )
}

/// Look for a query in some texts. Those that match are found, the best match
/// first, with the characters that the match takes.
pub fn search_texts(candidates: &Vec<usize>, contents: &Vec<String>, query: &str) -> (r: Vec<Hit>)
    requires
        searchable(candidates@, contents@, query@),
    ensures
        match_list::hit_indices(text::views(r@)).to_multiset() == matching(
            candidates@,
            text::views(contents@),
            query@,
            candidates@.len() as int,
        ).to_multiset(),
        marked_within(r@, contents@, query@),
        ranked(r@, scoring(candidates@, text::views(contents@), query@, candidates@.len() as int)),
{
    let mut matcher = new_matcher();
    let ghost cv = text::views(contents@);
    let mut scored: Vec<Scored> = Vec::new();
    assert(scored_indices(scored@) =~= matching(candidates@, cv, query@, 0));
    assert(text::views(scored@) =~= scoring(candidates@, cv, query@, 0));
    for i in 0..candidates.len()
        invariant
            cv == text::views(contents@),
            searchable(candidates@, contents@, query@),
            scored_indices(scored@) == matching(candidates@, cv, query@, i as int),
            marked_within(scored_hits(scored@), contents@, query@),
            matcher.asked@ == asked_of(candidates@, cv, query@, i as int),
            text::views(scored@) == scoring(candidates@, cv, query@, i as int),
    {
        let index: usize = candidates[i];
        assert(cv[index as int] == contents@[index as int]@);
        match fuzzy_indices(&mut matcher, contents[index].as_str(), query) {
            Some((score, matches)) => {
                let ghost before = scored@;
                scored.push(Scored { score, hit: Hit { index, matches } });
                assert(scored_indices(scored@) =~= scored_indices(before).push(index));
                assert(scored_hits(scored@) =~= scored_hits(before).push(scored@.last().hit));
                assert(text::views(scored@) =~= text::views(before).push(scored@.last()@));
            },
            None => {},
        }
    }
    let ghost all = scored@;
    let r = rank(scored);
    proof {
        let sorted = choose|sorted: Seq<Scored>| #[trigger]
            sorting::is_stable_sort(all, sorted) && r@ == scored_hits(sorted);
        lemma_indices_of_sorted(sorted, all);
        assert(match_list::hit_indices(text::views(r@)) =~= scored_indices(sorted));
        broadcast use vstd::seq_lib::group_to_multiset_ensures;

        assert forall|i: int| 0 <= i < r@.len() implies (#[trigger] r@[i]).index < contents@.len()
            && are_marks(r@[i].matches@, contents@[r@[i].index as int]@, query@) by {
            assert(sorted.contains(sorted[i]));
            assert(all.to_multiset().count(sorted[i]) > 0);
            let k = choose|k: int| 0 <= k < all.len() && all[k] == sorted[i];
            assert(scored_hits(all)[k] == r@[i]);
        }
    }
    r
}

// --------------------------------------------------------------------- popup

/// What is looked for.
#[derive(Clone, Copy, Debug, PartialEq, Eq, Structural)]
pub enum FuzzyFinderTarget {
    Branches,
    Files,
}

/// The text that is selected now.
#[derive(Debug, PartialEq, Eq)]
pub struct FuzzyFinderChanged {
    pub index: usize,
    pub text: String,
    pub target: FuzzyFinderTarget,
}

/// Finding a text by some of its characters.
#[derive(Debug)]
pub struct FuzzyFindPopup {
    pub list: MatchList,
    /// the place among all of the text that was told last
    pub selected_index: Option<usize>,
    pub target: Option<FuzzyFinderTarget>,
}

/// What an event led to.
#[derive(Debug)]
pub struct FindEvent {
    pub state: EventState,
    /// the selections to tell, in their order
    pub changed: Vec<FuzzyFinderChanged>,
    pub request: Option<SearchRequest>,
}

/// What is selected in a list.
pub open spec fn selected_in(list: MatchView) -> Option<usize> {
    if list.selection < list.filtered.len() {
        Some(list.filtered[list.selection].index)
    } else {
        None
    }
}

/// Whether another selection than before has to be told.
pub open spec fn tells(
    before: Option<usize>,
    list: MatchView,
    target: Option<FuzzyFinderTarget>,
) -> bool {
    selected_in(list) != before && selected_in(list) is Some && target is Some
}

pub open spec fn is_told(
    changed: FuzzyFinderChanged,
    list: MatchView,
    target: Option<FuzzyFinderTarget>,
) -> bool {
    &&& selected_in(list) == Some(changed.index)
    &&& changed.text@ == list.contents[changed.index as int]
    &&& target == Some(changed.target)
}

pub open spec fn is_change(
    before: Option<usize>,
    list: MatchView,
    target: Option<FuzzyFinderTarget>,
    changed: Option<FuzzyFinderChanged>,
) -> bool {
    if tells(before, list, target) {
        changed matches Some(c) && is_told(c, list, target)
    } else {
        changed is None
    }
}

/// What a key press asks for.
#[derive(Clone, Copy, Debug, PartialEq, Eq, Structural)]
pub enum FindIntent {
    Close,
    Down,
    Up,
    Nothing,
}

pub open spec fn intent(press: KeyPress) -> FindIntent {
    if press.has(Key::ExitPopup) || press.has(Key::Enter) {
        FindIntent::Close
    } else if press.has(Key::MoveDown) || press.has(Key::PopupDown) {
        FindIntent::Down
    } else if press.has(Key::MoveUp) || press.has(Key::PopupUp) {
        FindIntent::Up
    } else {
        FindIntent::Nothing
    }
}

fn key_intent(press: &KeyPress) -> (r: FindIntent)
    ensures
        r == intent(*press),
{
    if press.is(Key::ExitPopup) || press.is(Key::Enter) {
        FindIntent::Close
    } else if press.is(Key::MoveDown) || press.is(Key::PopupDown) {
        FindIntent::Down
    } else if press.is(Key::MoveUp) || press.is(Key::PopupUp) {
        FindIntent::Up
    } else {
        FindIntent::Nothing
    }
}

/// The list after a key press.
pub open spec fn keyed(list: MatchView, intent: FindIntent) -> MatchView {
    match intent {
        FindIntent::Close => list.closed(),
        FindIntent::Down => MatchView { selection: list.moved(ScrollType::Down), ..list },
        FindIntent::Up => MatchView { selection: list.moved(ScrollType::Up), ..list },
        FindIntent::Nothing => list,
    }
}

impl FuzzyFindPopup {
    pub open spec fn wf(self) -> bool {
        self.list@.wf()
    }

    /// A popup that is not open.
    pub fn new() -> (r: FuzzyFindPopup)
        ensures
            r.wf(),
            !r.list.visible,
            r.list.contents@.len() == 0,
            r.list.filtered@.len() == 0,
            r.list.query is None,
            r.list.filtered_query is None,
            r.list.selection == 0,
            r.list.search_generation == 0,
            r.selected_index is None,
            r.target is None,
    {
        let r = FuzzyFindPopup { list: MatchList::new(), selected_index: None, target: None };
        assert(text::views(r.list.contents@).len() == 0);
        assert(text::views(r.list.filtered@).len() == 0);
        r
    }

    /// Look for a query.
    pub fn search(&self, request: &SearchRequest) -> (r: Vec<Hit>)
        requires
            searchable(request.candidates@, self.list.contents@, request.query@),
        ensures
            match_list::hit_indices(text::views(r@)).to_multiset() == matching(
                request.candidates@,
                self.list@.contents,
                request.query@,
                request.candidates@.len() as int,
            ).to_multiset(),
            marked_within(r@, self.list.contents@, request.query@),
            ranked(
                r@,
                scoring(
                    request.candidates@,
                    self.list@.contents,
                    request.query@,
                    request.candidates@.len() as int,
                ),
            ),
    {
        search_texts(&request.candidates, &self.list.contents, request.query.as_str())
    }

    /// Note what is selected. If that is another text than before, it has to be
    /// told.
    fn refresh_selection(&mut self) -> (r: Option<FuzzyFinderChanged>)
        requires
            old(self).wf(),
        ensures
            *final(self) == (FuzzyFindPopup {
                selected_index: selected_in(old(self).list@),
                ..*old(self)
            }),
            is_change(old(self).selected_index, old(self).list@, old(self).target, r),
    {
        let selection = self.list.selected_index();
        assert(self.list.selection < self.list.filtered@.len() ==> self.list@.filtered[self.list@.selection]
            == self.list.filtered@[self.list.selection as int]@);
        let same = match (self.selected_index, selection) {
            (Some(a), Some(b)) => a == b,
            (None, None) => true,
            _ => false,
        };
        if same {
            return None;
        }
        self.selected_index = selection;
        match (selection, self.target) {
            (Some(index), Some(target)) => {
                assert(self.list@.contents[index as int] == self.list.contents@[index as int]@);
                Some(
                    FuzzyFinderChanged {
                        index,
                        text: self.list.contents[index].clone(),
                        target,
                    },
                )
            },
            _ => None,
        }
    }

    /// Take in the hits of a search, unless something else was asked since. Tells
    /// what is selected if that is another text than before.
    pub fn update(&mut self, generation: u64, query: String, hits: Vec<Hit>) -> (r: Option<
        FuzzyFinderChanged,
    >)
        requires
            old(self).wf(),
            forall|i: int|
                0 <= i < hits@.len() ==> (#[trigger] hits@[i]).index
                    < old(self).list.contents@.len(),
        ensures
            final(self).wf(),
            final(self).target == old(self).target,
            ({
                let list = old(self).list@.found(generation, query@, text::views(hits@));
                &&& final(self).list@ == list
                &&& if generation == old(self).list.search_generation {
                    &&& final(self).selected_index == selected_in(list)
                    &&& is_change(old(self).selected_index, list, old(self).target, r)
                } else {
                    final(self).selected_index == old(self).selected_index && r is None
                }
            }),
    {
        if self.list.update(generation, query, hits) {
            self.refresh_selection()
        } else {
            None
        }
    }

    /// Take in what was typed. Until a search is done, nothing is selected.
    pub fn update_query(&mut self, text: &str) -> (r: Option<SearchRequest>)
        requires
            old(self).wf(),
        ensures
            final(self).wf(),
            final(self).list@ == old(self).list@.after_typing(text@),
            final(self).target == old(self).target,
            match old(self).list@.typed(text@) {
                Some(query) => {
                    &&& match_list::is_request(old(self).list@, query, r)
                    &&& final(self).selected_index is None
                },
                None => r is None && final(self).selected_index == old(self).selected_index,
            },
    {
        let (asked, request) = self.list.update_query(text);
        if asked {
            let _ = self.refresh_selection();
        }
        request
    }

    /// Open the popup on some texts.
    pub fn open(&mut self, contents: Vec<String>, target: FuzzyFinderTarget)
        ensures
            final(self).wf(),
            final(self).list@ == (MatchView {
                visible: true,
                query: None,
                filtered_query: None,
                contents: text::views(contents@),
                selection: 0,
                filtered: Seq::empty(),
                search_generation: match_list::next_number(old(self).list.search_generation),
            }),
            final(self).selected_index is None,
            final(self).target == Some(target),
    {
        self.list.visible = true;
        self.list.query = None;
        self.list.filtered_query = None;
        self.list.filtered.clear();
        self.target = Some(target);
        if !same_lines(&self.list.contents, &contents) {
            self.list.contents = contents;
        }
        proof {
            assert(text::views(self.list.filtered@) =~= Seq::empty());
            assert(text::views(contents@).len() == contents@.len());
            assert(contents.len() <= usize::MAX);
            reveal_strlit("");
        }
        let _ = self.update_query("");
    }

    /// React to an event. `press` is the key, if it is one, and `typed` the text
    /// of the input if that used the event.
    pub fn event(&mut self, press: Option<&KeyPress>, typed: Option<&str>) -> (r: FindEvent)
        requires
            old(self).wf(),
        ensures
            final(self).wf(),
            final(self).target == old(self).target,
            r.state == EventState::of(old(self).list.visible),
            if !old(self).list.visible {
                &&& *final(self) == *old(self)
                &&& r.changed@.len() == 0
                &&& r.request is None
            } else {
                let wish = match press {
                    Some(press) => intent(*press),
                    None => FindIntent::Nothing,
                };
                let list = old(self).list@;
                let after = keyed(list, wish);
                let moved = (wish == FindIntent::Down || wish == FindIntent::Up)
                    && after.selection != list.selection;
                let selected = if moved {
                    selected_in(after)
                } else {
                    old(self).selected_index
                };
                &&& if moved && tells(old(self).selected_index, after, old(self).target) {
                    r.changed@.len() == 1 && is_told(r.changed@[0], after, old(self).target)
                } else {
                    r.changed@.len() == 0
                }
                &&& match typed {
                    Some(text) => {
                        &&& final(self).list@ == after.after_typing(text@)
                        &&& match after.typed(text@) {
                            Some(query) => {
                                &&& match_list::is_request(after, query, r.request)
                                &&& final(self).selected_index is None
                            },
                            None => r.request is None && final(self).selected_index == selected,
                        }
                    },
                    None => {
                        &&& final(self).list@ == after
                        &&& r.request is None
                        &&& final(self).selected_index == selected
                    },
                }
            },
    {
        let mut changed: Vec<FuzzyFinderChanged> = Vec::new();
        if !self.list.visible {
            return FindEvent { state: EventState::NotConsumed, changed, request: None };
        }
        let wish = match press {
            Some(press) => key_intent(press),
            None => FindIntent::Nothing,
        };
        let moved = match wish {
            FindIntent::Close => {
                self.list.close();
                false
            },
            FindIntent::Down => self.list.move_selection(ScrollType::Down),
            FindIntent::Up => self.list.move_selection(ScrollType::Up),
            FindIntent::Nothing => false,
        };
        if moved {
            match self.refresh_selection() {
                Some(change) => changed.push(change),
                None => {},
            }
        }
        let request = match typed {
            Some(text) => self.update_query(text),
            None => None,
        };
        FindEvent { state: EventState::Consumed, changed, request }
    }

    pub open spec fn command_list(self, force_all: bool) -> Seq<CommandInfo> {
        if self.list.visible || force_all {
            seq![
                CommandInfo::of(Command::ScrollPopup, true, true),
                CommandInfo::of(Command::CloseFuzzyFinder, true, true),
            ]
        } else {
            Seq::empty()
        }
    }

    /// Add the commands that the popup offers.
    pub fn commands(&self, out: &mut Vec<CommandInfo>, force_all: bool) -> (r: CommandBlocking)
        ensures
            final(out)@ == old(out)@ + self.command_list(force_all),
            r == if self.list.visible {
                CommandBlocking::Blocking
            } else {
                CommandBlocking::PassingOn
            },
    {
        if self.list.visible || force_all {
            out.push(CommandInfo::new(Command::ScrollPopup, true, true));
            out.push(CommandInfo::new(Command::CloseFuzzyFinder, true, true));
        }
        assert(out@ =~= old(out)@ + self.command_list(force_all));
        visibility_blocking(self.list.visible)
    }
}

// ----------------------------------------------------------------------- laws

proof fn lemma_shorter_holds(
    s: Seq<char>,
    old: Seq<char>,
    new: Seq<char>,
    old_case: bool,
    new_case: bool,
    i: int,
    k: int,
    j: int,
)
    requires
        0 <= k <= j,
        0 <= i,
        old.len() <= new.len(),
        forall|x: int| 0 <= x < old.len() ==> old[x] == new[x],
        old_case ==> new_case,
        holds_in_order(s, new, new_case, i, k),
    ensures
        holds_in_order(s, old, old_case, i, j),
    decreases s.len() - i,
{
    if j < old.len() {
        if i < s.len() {
            let old_alike = alike(s[i], old[j], old_case);
            let new_alike = alike(s[i], new[k], new_case);
            if k == j {
                assert(new_alike ==> old_alike);
            }
            if new_alike {
                if old_alike {
                    lemma_shorter_holds(s, old, new, old_case, new_case, i + 1, k + 1, j + 1);
                } else {
                    lemma_shorter_holds(s, old, new, old_case, new_case, i + 1, k + 1, j);
                }
            } else {
                if old_alike {
                    lemma_shorter_holds(s, old, new, old_case, new_case, i + 1, k, j + 1);
                } else {
                    lemma_shorter_holds(s, old, new, old_case, new_case, i + 1, k, j);
                }
            }
        }
    }
}

/// A longer query only matches texts that a shorter one at its start matches. So
/// it is enough to look at those.
pub proof fn lemma_narrowing_loses_nothing(s: Seq<char>, old: Seq<char>, new: Seq<char>)
    requires
        text::starts(new, old),
        matches(s, new),
    ensures
        matches(s, old),
{
    assert(new.subrange(0, old.len() as int) == old);
    assert forall|x: int| 0 <= x < old.len() implies old[x] == new[x] by {
        assert(new.subrange(0, old.len() as int)[x] == new[x]);
    }
    assert(heeds_case(old) ==> heeds_case(new)) by {
        if heeds_case(old) {
            let x = choose|x: int| 0 <= x < old.len() && 'A' <= #[trigger] old[x] <= 'Z';
            assert('A' <= new[x] <= 'Z');
        }
    }
    lemma_shorter_holds(s, old, new, heeds_case(old), heeds_case(new), 0, 0, 0);
}

/// Of two hits the one that scores better comes first, and each match is a hit.
pub proof fn lemma_better_hits_come_first(hits: Seq<Hit>, scores: Seq<ScoredView>, i: int, j: int)
    requires
        ranked(hits, scores),
        0 <= i <= j < hits.len(),
    ensures
        hits.len() == scores.len(),
        exists|a: int, b: int|
            0 <= a < scores.len() && 0 <= b < scores.len() && (#[trigger] scores[a]).hit == hits[i]@
                && (#[trigger] scores[b]).hit == hits[j]@ && scores[a].score >= scores[b].score,
{
    broadcast use vstd::seq_lib::group_to_multiset_ensures;

    let (scored, sorted) = choose|scored: Seq<Scored>, sorted: Seq<Scored>| #[trigger]
        sorting::is_stable_sort(scored, sorted) && text::views(scored) == scores && hits
            == scored_hits(sorted);
    assert(scored.to_multiset().len() == sorted.to_multiset().len());
    assert(sorted.contains(sorted[i]) && sorted.contains(sorted[j]));
    assert(scored.to_multiset().count(sorted[i]) > 0);
    assert(scored.to_multiset().count(sorted[j]) > 0);
    let a = choose|a: int| 0 <= a < scored.len() && scored[a] == sorted[i];
    let b = choose|b: int| 0 <= b < scored.len() && scored[b] == sorted[j];
    assert(sorted[i].before(sorted[j]));
    assert(scores[a].hit == hits[i]@ && scores[b].hit == hits[j]@);
}

/// The first hit, which is the one selected when a search is done, is a match
/// that no other scores better than.
pub proof fn lemma_the_best_is_first(hits: Seq<Hit>, scores: Seq<ScoredView>)
    requires
        ranked(hits, scores),
        scores.len() > 0,
    ensures
        hits.len() > 0,
        exists|a: int|
            0 <= a < scores.len() && (#[trigger] scores[a]).hit == hits[0]@ && forall|k: int|
                0 <= k < scores.len() ==> scores[a].score >= (#[trigger] scores[k]).score,
{
    broadcast use vstd::seq_lib::group_to_multiset_ensures;

    let (scored, sorted) = choose|scored: Seq<Scored>, sorted: Seq<Scored>| #[trigger]
        sorting::is_stable_sort(scored, sorted) && text::views(scored) == scores && hits
            == scored_hits(sorted);
    assert(scored.to_multiset().len() == sorted.to_multiset().len());
    assert(sorted.contains(sorted[0]));
    assert(scored.to_multiset().count(sorted[0]) > 0);
    let a = choose|a: int| 0 <= a < scored.len() && scored[a] == sorted[0];
    assert(scores[a].hit == hits[0]@);
    assert forall|k: int| 0 <= k < scores.len() implies scores[a].score >= (
    #[trigger] scores[k]).score by {
        assert(scored.contains(scored[k]));
        assert(sorted.to_multiset().count(scored[k]) > 0);
        let m = choose|m: int| 0 <= m < sorted.len() && sorted[m] == scored[k];
        assert(sorted[0].before(sorted[m]));
    }
}

/// Whether the characters at some positions of a text, from left to right, spell
/// a query.
pub open spec fn spells(s: Seq<char>, query: Seq<char>, case: bool, at: Seq<int>) -> bool {
    &&& at.len() == query.len()
    &&& forall|k: int|
        0 <= k < at.len() ==> 0 <= #[trigger] at[k] < s.len() && (s[at[k]] == query[k] || (!case
            && folded(s[at[k]]) == folded(query[k])))
    &&& forall|j: int, k: int| 0 <= j < k < at.len() ==> #[trigger] at[j] < #[trigger] at[k]
}

proof fn lemma_spelled_from(
    s: Seq<char>,
    query: Seq<char>,
    case: bool,
    at: Seq<int>,
    i: int,
    j: int,
)
    requires
        spells(s, query, case, at),
        0 <= i <= s.len(),
        0 <= j <= query.len(),
        j < query.len() ==> i <= at[j],
    ensures
        holds_in_order(s, query, case, i, j),
    decreases s.len() - i,
{
    if j < query.len() {
        assert(at[j] < s.len());
        if alike(s[i], query[j], case) {
            if j + 1 < query.len() {
                assert(at[j] < at[j + 1]);
            }
            lemma_spelled_from(s, query, case, at, i + 1, j + 1);
        } else {
            lemma_spelled_from(s, query, case, at, i + 1, j);
        }
    }
}

proof fn lemma_spelling_from(s: Seq<char>, query: Seq<char>, case: bool, i: int, j: int) -> (at:
    Seq<int>)
    requires
        holds_in_order(s, query, case, i, j),
        0 <= i <= s.len(),
        0 <= j <= query.len(),
    ensures
        spells(s, query.skip(j), case, at),
        at.len() > 0 ==> i <= at[0],
    decreases s.len() - i,
{
    if j >= query.len() {
        Seq::empty()
    } else if alike(s[i], query[j], case) {
        let rest = lemma_spelling_from(s, query, case, i + 1, j + 1);
        let at = seq![i] + rest;
        let wanted = query.skip(j);
        assert forall|k: int| 0 <= k < at.len() implies 0 <= #[trigger] at[k] < s.len() && (
        s[at[k]] == wanted[k] || (!case && folded(s[at[k]]) == folded(wanted[k]))) by {
            if k > 0 {
                assert(at[k] == rest[k - 1]);
                assert(wanted[k] == query.skip(j + 1)[k - 1]);
            }
        }
        assert forall|m: int, k: int| 0 <= m < k < at.len() implies #[trigger] at[m]
            < #[trigger] at[k] by {
            assert(at[k] == rest[k - 1]);
            if m > 0 {
                assert(at[m] == rest[m - 1]);
            } else if k > 1 {
                assert(rest[0] < rest[k - 1]);
            }
        }
        at
    } else {
        lemma_spelling_from(s, query, case, i + 1, j)
    }
}

/// A text matches exactly where the query can be spelled by some of its
/// characters, from left to right; case counts only where the query has a capital
/// letter.
pub proof fn lemma_matching_texts_spell_the_query(s: Seq<char>, query: Seq<char>)
    ensures
        matches(s, query) <==> exists|at: Seq<int>| spells(s, query, heeds_case(query), at),
        heeds_case(query) <==> exists|i: int| 0 <= i < query.len() && 'A' <= #[trigger] query[i]
            <= 'Z',
        matches(s, Seq::empty()),
        matches(s, s),
{
    let case = heeds_case(query);
    if matches(s, query) {
        let at = lemma_spelling_from(s, query, case, 0, 0);
        assert(query.skip(0) =~= query);
        assert(spells(s, query, case, at));
    }
    if exists|at: Seq<int>| spells(s, query, case, at) {
        let at = choose|at: Seq<int>| spells(s, query, case, at);
        lemma_spelled_from(s, query, case, at, 0, 0);
    }
    let all = Seq::new(s.len(), |i: int| i);
    assert(spells(s, s, heeds_case(s), all));
    lemma_spelled_from(s, s, heeds_case(s), all, 0, 0);
}

/// Letters are alike where they are the same, or, if case does not count, where
/// they differ in nothing else.
pub proof fn lemma_letters_are_alike(a: char, b: char)
    ensures
        alike(a, b, true) <==> a == b,
        alike(a, b, false) <==> alike(b, a, false),
        alike(a, a, false),
        'A' <= a && a <= 'Z' && b as int == a as int + 32 ==> alike(a, b, false) && !alike(
            a,
            b,
            true,
        ),
        alike(a, b, false) && a != b ==> b as int == a as int + 32 || a as int == b as int + 32,
{
}

/// The candidates that match stay, and no others.
pub proof fn lemma_matching_candidates_stay(
    candidates: Seq<usize>,
    contents: Seq<Seq<char>>,
    query: Seq<char>,
    n: int,
    k: int,
)
    requires
        0 <= n <= candidates.len(),
    ensures
        0 <= k < matching(candidates, contents, query, n).len() ==> matches(
            contents[matching(candidates, contents, query, n)[k] as int],
            query,
        ),
        0 <= k < n && matches(contents[candidates[k] as int], query) ==> matching(
            candidates,
            contents,
            query,
            n,
        ).contains(candidates[k]),
        matching(candidates, contents, query, n).len() <= n,
    decreases n,
{
    if n > 0 {
        lemma_matching_candidates_stay(candidates, contents, query, n - 1, k);
        let rest = matching(candidates, contents, query, n - 1);
        let all = matching(candidates, contents, query, n);
        if 0 <= k < n && matches(contents[candidates[k] as int], query) {
            if k < n - 1 {
                let i = choose|i: int| 0 <= i < rest.len() && rest[i] == candidates[k];
                assert(all[i] == candidates[k]);
            } else {
                assert(all[all.len() - 1] == candidates[k]);
            }
        }
    }
}

/// Every hit is one of the candidates.
pub proof fn lemma_hits_are_candidates(
    candidates: Seq<usize>,
    contents: Seq<Seq<char>>,
    query: Seq<char>,
    n: int,
    k: int,
)
    requires
        0 <= n <= candidates.len(),
    ensures
        scoring(candidates, contents, query, n).len() <= n,
        0 <= k < scoring(candidates, contents, query, n).len() ==> candidates.contains(
            scoring(candidates, contents, query, n)[k].hit.index,
        ),
    decreases n,
{
    if n > 0 {
        lemma_hits_are_candidates(candidates, contents, query, n - 1, k);
        assert(candidates.contains(candidates[n - 1]));
    }
}

/// Each key has its own effect, and any other leaves the list as it is.
pub proof fn lemma_keys_of_the_finder(list: MatchView, press: KeyPress)
    ensures
        press.is_only(Key::ExitPopup) || press.is_only(Key::Enter) ==> !keyed(
            list,
            intent(press),
        ).visible,
        press.is_only(Key::MoveDown) || press.is_only(Key::PopupDown) ==> keyed(
            list,
            intent(press),
        ).selection == list.moved(ScrollType::Down),
        press.is_only(Key::MoveUp) || press.is_only(Key::PopupUp) ==> keyed(
            list,
            intent(press),
        ).selection == list.moved(ScrollType::Up),
        !press.has(Key::ExitPopup) && !press.has(Key::Enter) && !press.has(Key::MoveDown)
            && !press.has(Key::PopupDown) && !press.has(Key::MoveUp) && !press.has(Key::PopupUp)
            ==> keyed(list, intent(press)) == list,
        keyed(list, intent(press)).contents == list.contents,
{
}

/// Another line that is selected is told, with its place and its text; the same
/// one is not told again.
pub proof fn lemma_selections_are_told(
    before: Option<usize>,
    list: MatchView,
    target: FuzzyFinderTarget,
    changed: Option<FuzzyFinderChanged>,
)
    requires
        is_change(before, list, Some(target), changed),
    ensures
        list.selection >= list.filtered.len() ==> changed is None,
        list.selection < list.filtered.len() ==> {
            let index = list.filtered[list.selection].index;
            &&& before == Some(index) ==> changed is None
            &&& before != Some(index) ==> changed is Some && changed->0.index == index
                && changed->0.target == target && changed->0.text@ == list.contents[index as int]
        },
{
}

} // verus!
