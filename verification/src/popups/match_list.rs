//! A list of texts that match what is typed, searched in the background.
use crate::components::ScrollType;
use crate::text;
use crate::unicode;
use vstd::prelude::*;
use vstd::string::*;

verus! {

/// A text that matches: its place in the list of all, and which of its
/// characters are marked.
#[derive(Debug, PartialEq, Eq)]
pub struct Hit {
    pub index: usize,
    pub matches: Vec<usize>,
}

/// What a [`Hit`] holds.
#[verifier::ext_equal]
pub struct HitView {
    pub index: usize,
    pub matches: Seq<usize>,
}

impl View for Hit {
    type V = HitView;

    open spec fn view(&self) -> HitView {
        HitView { index: self.index, matches: self.matches@ }
    }
}

pub open spec fn opt_view(s: Option<String>) -> Option<Seq<char>> {
    match s {
        Some(s) => Some(s@),
        None => None,
    }
}

fn same_option(a: &Option<String>, b: &Option<String>) -> (r: bool)
    ensures
        r == (opt_view(*a) == opt_view(*b)),
{
    match (a, b) {
        (Some(a), Some(b)) => text::same(a.as_str(), b.as_str()),
        (None, None) => true,
        _ => false,
    }
}

/// A search: which texts to look at for what.
#[derive(Debug, PartialEq, Eq)]
pub struct SearchRequest {
    pub generation: u64,
    pub query: String,
    pub candidates: Vec<usize>,
}

/// Whether candidates are places among `n` texts.
pub fn all_within(candidates: &Vec<usize>, n: usize) -> (r: bool)
    ensures
        r == forall|i: int| 0 <= i < candidates@.len() ==> #[trigger] candidates@[i] < n,
{
    for i in 0..candidates.len()
        invariant
            forall|k: int| 0 <= k < i ==> #[trigger] candidates@[k] < n,
    {
        if candidates[i] >= n {
            assert(!(candidates@[i as int] < n));
            return false;
        }
    }
    true
}

/// A list of texts that match what is typed.
#[derive(Debug)]
pub struct MatchList {
    pub visible: bool,
    pub query: Option<String>,
    /// what the hits were searched for
    pub filtered_query: Option<String>,
    pub contents: Vec<String>,
    pub selection: usize,
    pub filtered: Vec<Hit>,
    /// the number of searches, so that outdated ones are noticed
    pub search_generation: u64,
}

/// What a [`MatchList`] holds.
#[verifier::ext_equal]
pub struct MatchView {
    pub visible: bool,
    pub query: Option<Seq<char>>,
    pub filtered_query: Option<Seq<char>>,
    pub contents: Seq<Seq<char>>,
    pub selection: int,
    pub filtered: Seq<HitView>,
    pub search_generation: u64,
}

impl View for MatchList {
    type V = MatchView;

    open spec fn view(&self) -> MatchView {
        MatchView {
            visible: self.visible,
            query: opt_view(self.query),
            filtered_query: opt_view(self.filtered_query),
            contents: text::views(self.contents@),
            selection: self.selection as int,
            filtered: text::views(self.filtered@),
            search_generation: self.search_generation,
        }
    }
}

/// The number after another, from the start again at the end.
pub open spec fn next_number(n: u64) -> u64 {
    if n < u64::MAX {
        (n + 1) as u64
    } else {
        0
    }
}

pub open spec fn hit_indices(hits: Seq<HitView>) -> Seq<usize> {
    Seq::new(hits.len(), |i: int| hits[i].index)
}

pub open spec fn all_indices(n: nat) -> Seq<usize> {
    Seq::new(n, |i: int| i as usize)
}

impl MatchView {
    /// What holds of every list: its hits are among its texts.
    pub open spec fn wf(self) -> bool {
        &&& self.contents.len() <= usize::MAX
        &&& forall|i: int|
            0 <= i < self.filtered.len() ==> (#[trigger] self.filtered[i]).index
                < self.contents.len()
    }

    /// Whether a query can only match texts that were found last.
    pub open spec fn narrows(self, query: Option<Seq<char>>) -> bool {
        &&& self.filtered_query == self.query
        &&& self.query matches Some(old)
        &&& query matches Some(new)
        &&& text::starts(new, old)
    }

    /// The texts to look at.
    pub open spec fn candidates(self, query: Option<Seq<char>>) -> Seq<usize> {
        if self.narrows(query) {
            hit_indices(self.filtered)
        } else {
            all_indices(self.contents.len())
        }
    }

    /// After another query there are no hits until a search is done.
    pub open spec fn asked(self, query: Option<Seq<char>>) -> MatchView {
        MatchView {
            query,
            filtered_query: None,
            filtered: Seq::empty(),
            selection: 0,
            search_generation: next_number(self.search_generation),
            ..self
        }
    }

    /// The hits of a search count if nothing else was asked since.
    pub open spec fn found(
        self,
        generation: u64,
        query: Seq<char>,
        hits: Seq<HitView>,
    ) -> MatchView {
        if generation == self.search_generation {
            MatchView { filtered: hits, filtered_query: Some(query), selection: 0, ..self }
        } else {
            self
        }
    }

    /// The list after a text was typed.
    pub open spec fn after_typing(self, text: Seq<char>) -> MatchView {
        match self.typed(text) {
            Some(query) => self.asked(query),
            None => self,
        }
    }

    /// The list after it was closed. A search that runs is outdated then.
    pub open spec fn closed(self) -> MatchView {
        MatchView {
            visible: false,
            search_generation: next_number(self.search_generation),
            ..self
        }
    }

    /// What is asked for after a text was typed, if it is not asked for already.
    pub open spec fn typed(self, text: Seq<char>) -> Option<Option<Seq<char>>> {
        if text.len() == 0 {
            Some(None)
        } else if self.query != Some(text) {
            Some(Some(text))
        } else {
            None
        }
    }

    /// The selection after a move.
    pub open spec fn moved(self, move_type: ScrollType) -> int {
        let last = if self.filtered.len() > 0 {
            self.filtered.len() - 1
        } else {
            0
        };
        let wanted = match move_type {
            ScrollType::Up => if self.selection > 0 {
                self.selection - 1
            } else {
                0
            },
            ScrollType::Down => self.selection + 1,
            _ => self.selection,
        };
        if wanted > last {
            last
        } else {
            wanted
        }
    }
}

/// Whether a request is the one for a query.
pub open spec fn is_request(list: MatchView, query: Option<Seq<char>>, r: Option<SearchRequest>) -> bool {
    match query {
        Some(q) => {
            &&& r matches Some(request)
            &&& request.generation == next_number(list.search_generation)
            &&& request.query@ == q
            &&& request.candidates@ == list.candidates(query)
        },
        None => r is None,
    }
}

impl MatchList {
    /// An empty list.
    pub fn new() -> (r: MatchList)
        ensures
            r@ == (MatchView {
                visible: false,
                query: None,
                filtered_query: None,
                contents: Seq::empty(),
                selection: 0,
                filtered: Seq::empty(),
                search_generation: 0,
            }),
    {
        let r = MatchList {
            visible: false,
            query: None,
            filtered_query: None,
            contents: Vec::new(),
            selection: 0,
            filtered: Vec::new(),
            search_generation: 0,
        };
        assert(r@.contents =~= Seq::empty());
        assert(r@.filtered =~= Seq::empty());
        r
    }

    fn narrowing(&self, query: &Option<String>) -> (r: bool)
        ensures
            r == self@.narrows(opt_view(*query)),
    {
        if !same_option(&self.filtered_query, &self.query) {
            return false;
        }
        match (&self.query, query) {
            (Some(old), Some(new)) => text::starts_with(new.as_str(), old.as_str()),
            _ => false,
        }
    }

    fn candidate_list(&self, query: &Option<String>) -> (r: Vec<usize>)
        ensures
            r@ == self@.candidates(opt_view(*query)),
    {
        let mut out: Vec<usize> = Vec::new();
        if self.narrowing(query) {
            for i in 0..self.filtered.len()
                invariant
                    out@ == hit_indices(self@.filtered.take(i as int)),
            {
                out.push(self.filtered[i].index);
                assert(out@ =~= hit_indices(self@.filtered.take(i + 1)));
            }
            assert(self@.filtered.take(self.filtered@.len() as int) =~= self@.filtered);
        } else {
            for i in 0..self.contents.len()
                invariant
                    out@ == all_indices(i as nat),
            {
                out.push(i);
                assert(out@ =~= all_indices((i + 1) as nat));
            }
        }
        out
    }

    /// Ask for something else. A longer query only has to be looked for in what
    /// was found last.
    pub fn set_query(&mut self, query: Option<String>) -> (r: Option<SearchRequest>)
        ensures
            final(self)@ == old(self)@.asked(opt_view(query)),
            is_request(old(self)@, opt_view(query), r),
            final(self).contents == old(self).contents,
    {
        let candidates = self.candidate_list(&query);
        self.filtered.clear();
        self.filtered_query = None;
        self.selection = 0;
        self.search_generation = self.search_generation.wrapping_add(1);
        let r = match &query {
            Some(q) => Some(
                SearchRequest {
                    generation: self.search_generation,
                    query: q.clone(),
                    candidates,
                },
            ),
            None => None,
        };
        self.query = query;
        assert(self@ =~= old(self)@.asked(opt_view(query)));
        r
    }

    /// Take in what was typed. Tells what is to be searched.
    pub fn update_query(&mut self, text: &str) -> (r: (bool, Option<SearchRequest>))
        ensures
            match old(self)@.typed(text@) {
                Some(query) => {
                    &&& r.0
                    &&& final(self)@ == old(self)@.asked(query)
                    &&& is_request(old(self)@, query, r.1)
                },
                None => !r.0 && r.1 is None && final(self)@ == old(self)@,
            },
            final(self).contents == old(self).contents,
    {
        if text.unicode_len() == 0 {
            return (true, self.set_query(None));
        }
        let known = match &self.query {
            Some(q) => text::same(q.as_str(), text),
            None => false,
        };
        if known {
            (false, None)
        } else {
            (true, self.set_query(Some(text.to_owned())))
        }
    }

    /// Take in the hits of a search. Tells whether they count.
    pub fn update(&mut self, generation: u64, query: String, hits: Vec<Hit>) -> (r: bool)
        ensures
            final(self)@ == old(self)@.found(generation, query@, text::views(hits@)),
            r == (generation == old(self).search_generation),
            final(self).contents == old(self).contents,
    {
        if generation != self.search_generation {
            return false;
        }
        self.filtered = hits;
        self.filtered_query = Some(query);
        self.selection = 0;
        true
    }

    /// Move the selection. Tells whether it moved.
    pub fn move_selection(&mut self, move_type: ScrollType) -> (r: bool)
        ensures
            final(self)@ == (MatchView {
                selection: old(self)@.moved(move_type),
                ..old(self)@
            }),
            r == (old(self)@.moved(move_type) != old(self)@.selection),
            final(self).contents == old(self).contents,
            final(self).filtered == old(self).filtered,
    {
        let n: usize = self.filtered.len();
        let last: usize = if n > 0 {
            n - 1
        } else {
            0
        };
        let wanted: usize = match move_type {
            ScrollType::Up => if self.selection > 0 {
                self.selection - 1
            } else {
                0
            },
            ScrollType::Down => self.selection.saturating_add(1),
            _ => self.selection,
        };
        let next: usize = if wanted > last {
            last
        } else {
            wanted
        };
        if next != self.selection {
            self.selection = next;
            true
        } else {
            false
        }
    }

    /// Close the list. A search that runs is outdated then.
    pub fn close(&mut self)
        ensures
            final(self)@ == old(self)@.closed(),
            final(self).contents == old(self).contents,
            final(self).filtered == old(self).filtered,
    {
        self.visible = false;
        self.search_generation = self.search_generation.wrapping_add(1);
    }

    /// The place among all of the hit that is selected.
    pub open spec fn selected(self) -> Option<usize> {
        if self.selection < self.filtered@.len() {
            Some(self.filtered@[self.selection as int].index)
        } else {
            None
        }
    }

    /// The place among all of the hit that is selected.
    pub fn selected_index(&self) -> (r: Option<usize>)
        ensures
            r == self.selected(),
    {
        if self.selection < self.filtered.len() {
            Some(self.filtered[self.selection].index)
        } else {
            None
        }
    }

    /// How many hits are above an area of some height, so that the selected one
    /// is in it.
    pub open spec fn skipped_hits(self, height: u16) -> int {
        let inner = if height >= 2 {
            height - 2
        } else {
            0
        };
        if self.selection >= inner {
            self.selection - inner
        } else {
            0
        }
    }

    /// How many hits are in an area of some height.
    pub open spec fn shown_hits(self, height: u16) -> int {
        let left = self.filtered@.len() - self.skipped_hits(height);
        if left <= 0 {
            0
        } else if left < height {
            left
        } else {
            height as int
        }
    }

    /// What the list looks like in an area of some height.
    pub fn layout(&self, height: u16) -> (r: ListLayout)
        ensures
            r.title@ == "Hits: "@ + text::digits(self.filtered@.len()),
            r.skip == self.skipped_hits(height),
            r.shown == self.shown_hits(height),
            r.scrollbar == (self.filtered@.len() > if height >= 2 {
                height - 2
            } else {
                0
            }),
    {
        let n: usize = self.filtered.len();
        let h: usize = height as usize;
        let inner: usize = if h >= 2 {
            h - 2
        } else {
            0
        };
        let skip: usize = if self.selection >= inner {
            self.selection - inner
        } else {
            0
        };
        let left: usize = if n > skip {
            n - skip
        } else {
            0
        };
        let count = text::number(n as u64);
        ListLayout {
            title: text::join2("Hits: ", count.as_str()),
            skip,
            shown: if left < h {
                left
            } else {
                h
            },
            scrollbar: n > inner,
        }
    }
}

/// What a list of hits looks like.
#[derive(Debug, PartialEq, Eq)]
pub struct ListLayout {
    pub title: String,
    /// how many hits are above the area
    pub skip: usize,
    /// how many hits are in the area
    pub shown: usize,
    pub scrollbar: bool,
}

/// Which of the last `shown` of `total` characters match.
pub open spec fn marked(total: int, shown: nat, matches: Seq<usize>) -> Seq<bool> {
    Seq::new(shown, |i: int| matches.contains((i + total - shown) as usize))
}

/// Which characters of a hit are marked. Only the last `shown` of its `total`
/// characters are visible.
pub fn marks(total: usize, shown: usize, matches: &Vec<usize>) -> (r: Vec<bool>)
    requires
        shown <= total,
    ensures
        r@ == marked(total as int, shown as nat, matches@),
{
    let hidden: usize = total - shown;
    let mut out: Vec<bool> = Vec::new();
    for i in 0..shown
        invariant
            shown <= total,
            hidden == total - shown,
            out@ == Seq::new(i as nat, |k: int| matches@.contains((k + total - shown) as usize)),
    {
        let mut found = false;
        for j in 0..matches.len()
            invariant
                hidden + i <= usize::MAX,
                found == exists|k: int| 0 <= k < j && #[trigger] matches@[k] == hidden + i,
        {
            if matches[j] == hidden + i {
                found = true;
                assert(matches@[j as int] == hidden + i);
            }
        }
        assert(found == matches@.contains((i + total - shown) as usize));
        out.push(found);
        assert(out@ =~= Seq::new(
            (i + 1) as nat,
            |k: int| matches@.contains((k + total - shown) as usize),
        ));
    }
    out
}

/// A hit as it is drawn.
#[derive(Debug, PartialEq, Eq)]
pub struct MatchRow {
    /// the characters that are visible
    pub letters: Vec<String>,
    /// which of them match
    pub marked: Vec<bool>,
    pub selected: bool,
}

/// What a [`MatchRow`] holds.
#[verifier::ext_equal]
pub struct MatchRowView {
    pub letters: Seq<Seq<char>>,
    pub marked: Seq<bool>,
    pub selected: bool,
}

impl View for MatchRow {
    type V = MatchRowView;

    open spec fn view(&self) -> MatchRowView {
        MatchRowView {
            letters: text::views(self.letters@),
            marked: self.marked@,
            selected: self.selected,
        }
    }
}

/// A hit that is cut to a width at its start. There is nothing to draw if the
/// rest of the text were to hold more characters than all of it.
pub open spec fn drawn_row(content: Seq<char>, hit: HitView, selected: bool, width: int) -> Option<
    MatchRowView,
> {
    let all = unicode::grapheme_clusters(content);
    let letters = unicode::grapheme_clusters(text::trimmed_left(content, width));
    if letters.len() > all.len() {
        None
    } else {
        Some(
            MatchRowView {
                letters,
                marked: marked(all.len() as int, letters.len(), hit.matches),
                selected,
            },
        )
    }
}

pub open spec fn row_view(row: Option<MatchRow>) -> Option<MatchRowView> {
    match row {
        Some(row) => Some(row@),
        None => None,
    }
}

impl MatchList {
    /// Draw a hit. `selected` is the place among all of the hit that is
    /// selected.
    pub fn draw_row(&self, at: usize, selected: Option<usize>, width: usize) -> (r: Option<MatchRow>)
        requires
            self@.wf(),
            at < self.filtered@.len(),
        ensures
            row_view(r) == drawn_row(
                self.contents@[self.filtered@[at as int].index as int]@,
                self.filtered@[at as int]@,
                selected == Some(self.filtered@[at as int].index),
                width as int,
            ),
    {
        let hit = &self.filtered[at];
        assert(self@.filtered[at as int] == hit@);
        let content = self.contents[hit.index].as_str();
        let all = unicode::graphemes(content);
        let trimmed = text::trim_length_left(content, width);
        let letters = unicode::graphemes(trimmed.as_str());
        assert(text::views(all@).len() == all@.len());
        assert(text::views(letters@).len() == letters@.len());
        if letters.len() > all.len() {
            return None;
        }
        let is_selected = match selected {
            Some(index) => index == hit.index,
            None => false,
        };
        let marks = marks(all.len(), letters.len(), &hit.matches);
        Some(MatchRow { letters, marked: marks, selected: is_selected })
    }

    /// Draw the hits that are in an area.
    pub fn draw_matches_list(&self, selected: Option<usize>, width: u16, height: u16) -> (r: Vec<
        Option<MatchRow>,
    >)
        requires
            self@.wf(),
        ensures
            r@.len() == self.shown_hits(height),
            forall|i: int|
                0 <= i < r@.len() ==> {
                    let hit = self.filtered@[i + self.skipped_hits(height)];
                    row_view(#[trigger] r@[i]) == drawn_row(
                        self.contents@[hit.index as int]@,
                        hit@,
                        selected == Some(hit.index),
                        width as int,
                    )
                },
    {
        let layout = self.layout(height);
        let n: usize = self.filtered.len();
        let mut rows: Vec<Option<MatchRow>> = Vec::new();
        for i in 0..layout.shown
            invariant
                n == self.filtered@.len(),
                self@.wf(),
                layout.skip == self.skipped_hits(height),
                layout.shown == self.shown_hits(height),
                rows@.len() == i,
                forall|k: int|
                    0 <= k < i ==> {
                        let hit = self.filtered@[k + self.skipped_hits(height)];
                        row_view(#[trigger] rows@[k]) == drawn_row(
                            self.contents@[hit.index as int]@,
                            hit@,
                            selected == Some(hit.index),
                            width as int,
                        )
                    },
        {
            assert(layout.skip + i < n);
            let row = self.draw_row(layout.skip + i, selected, width as usize);
            rows.push(row);
        }
        rows
    }
}

/// What is looked at is among the texts.
pub proof fn lemma_candidates_are_texts(list: MatchView, query: Option<Seq<char>>)
    requires
        list.wf(),
    ensures
        forall|i: int|
            0 <= i < list.candidates(query).len() ==> #[trigger] list.candidates(query)[i]
                < list.contents.len(),
{
}

/// The hits of a search that is outdated are dropped.
pub proof fn lemma_outdated_hits_are_dropped(
    list: MatchView,
    query: Option<Seq<char>>,
    old_query: Seq<char>,
    hits: Seq<HitView>,
)
    ensures
        list.asked(query).found(list.search_generation, old_query, hits) == list.asked(query),
{
}

/// The selection stays on a hit.
pub proof fn lemma_selection_stays_on_a_hit(list: MatchView, move_type: ScrollType)
    requires
        list.filtered.len() > 0,
        0 <= list.selection < list.filtered.len(),
    ensures
        0 <= list.moved(move_type) < list.filtered.len(),
{
}

/// A changed query starts a search of its own number, among all texts unless it goes
/// on from one that has been answered; an empty one ends the search.
pub proof fn lemma_typing_searches(list: MatchView, text: Seq<char>, r: Option<SearchRequest>)
    requires
        list.wf(),
        list.typed(text) is Some,
        is_request(list, list.typed(text)->0, r),
    ensures
        text.len() == 0 ==> r is None && list.after_typing(text).query is None,
        text.len() > 0 ==> (r matches Some(request) && request.query@ == text
            && request.generation == list.after_typing(text).search_generation
            && list.after_typing(text).query == Some(text)),
        list.after_typing(text).search_generation != list.search_generation,
        list.after_typing(text).filtered.len() == 0,
        list.after_typing(text).contents == list.contents,
{
}

/// Without an answer to what was asked before, all texts are looked at; with one,
/// and a query that goes on from it, those that it left.
pub proof fn lemma_what_is_looked_at(list: MatchView, new: Seq<char>, i: int)
    requires
        list.wf(),
    ensures
        list.filtered_query != list.query && 0 <= i < list.contents.len() ==> list.candidates(
            Some(new),
        ).contains(i as usize),
        list.query is None && 0 <= i < list.contents.len() ==> list.candidates(
            Some(new),
        ).contains(i as usize),
        (list.query is Some && list.filtered_query == list.query && text::starts(
            new,
            list.query->0,
        )) ==> list.candidates(Some(new)).len() == list.filtered.len(),
        (list.query is Some && list.filtered_query == list.query && text::starts(
            new,
            list.query->0,
        ) && 0 <= i < list.filtered.len()) ==> list.candidates(Some(new))[i]
            == list.filtered[i].index,
        (list.query is Some && !text::starts(new, list.query->0) && 0 <= i
            < list.contents.len()) ==> list.candidates(Some(new)).contains(i as usize),
{
    let all = all_indices(list.contents.len());
    if 0 <= i < list.contents.len() {
        assert(all[i] == i as usize);
    }
}

/// An answer in time is shown from its first hit on.
pub proof fn lemma_answers_are_shown(list: MatchView, query: Seq<char>, hits: Seq<HitView>)
    ensures
        ({
            let after = list.found(list.search_generation, query, hits);
            &&& after.filtered == hits
            &&& after.selection == 0
            &&& after.filtered_query == Some(query)
            &&& after.contents == list.contents
            &&& after.query == list.query
        }),
{
}

/// The selection moves by one hit, and stays at the first and the last.
pub proof fn lemma_the_selection_moves_by_one(list: MatchView)
    requires
        0 <= list.selection < list.filtered.len(),
    ensures
        list.moved(ScrollType::Down) == if list.selection + 1 < list.filtered.len() {
            list.selection + 1
        } else {
            list.selection
        },
        list.moved(ScrollType::Up) == if list.selection > 0 {
            list.selection - 1
        } else {
            0
        },
{
}

/// The selected hit is among those that are drawn.
pub proof fn lemma_the_selected_hit_is_drawn(list: MatchList, height: u16)
    requires
        list.selection < list.filtered@.len(),
        height > 0,
    ensures
        0 <= list.skipped_hits(height) <= list.selection < list.skipped_hits(height)
            + list.shown_hits(height),
        list.skipped_hits(height) + list.shown_hits(height) <= list.filtered@.len(),
        list.shown_hits(height) <= height,
{
}

/// The letters of a text that is cut at its start keep their marks.
pub proof fn lemma_marks_move_with_their_letters(
    total: int,
    shown: nat,
    matches: Seq<usize>,
    i: int,
)
    requires
        shown <= total <= usize::MAX,
        0 <= i < shown,
    ensures
        marked(total, shown, matches).len() == shown,
        marked(total, shown, matches)[i] == marked(total, total as nat, matches)[i + total - shown],
        marked(total, total as nat, matches)[i] <==> matches.contains(i as usize),
{
}

/// Only a text that is not looked for yet starts a search; an empty one ends it.
pub proof fn lemma_when_typing_searches(list: MatchView, text: Seq<char>)
    ensures
        text.len() == 0 ==> list.typed(text) == Some(None::<Seq<char>>),
        text.len() > 0 && list.query == Some(text) ==> list.typed(text) is None,
        text.len() > 0 && list.query != Some(text) ==> list.typed(text) == Some(Some(text)),
{
}

} // verus!
