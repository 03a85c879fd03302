//! The panes with the data and the message of a commit.
use crate::components::utils::scroll_vertical::VerticalScroll;
use crate::components::{
    Command, CommandBlocking, CommandInfo, CommandOrder, EventState, Key, KeyPress, ScrollType,
};
use crate::text;
use crate::ui;
use crate::unicode;
use vstd::prelude::*;
use vstd::string::*;

verus! {

/// The message of a commit.
#[derive(Clone, Debug, PartialEq, Eq)]
pub struct CommitMessage {
    /// its first line
    pub subject: String,
    /// its other lines
    pub body: Option<String>,
}

impl CommitMessage {
    /// The message that a text stands for.
    pub fn from(s: &str) -> (r: CommitMessage)
        ensures
            ({
                let lines = text::lines_of(s@);
                &&& r.subject@ == if lines.len() > 0 {
                    lines[0]
                } else {
                    Seq::empty()
                }
                &&& match r.body {
                    Some(body) => lines.len() > 1 && body@ == text::joined(
                        lines.drop_first(),
                        "\n"@,
                    ),
                    None => lines.len() <= 1,
                }
            }),
    {
        let mut lines = text::lines(s);
        let ghost all = text::lines_of(s@);
        if lines.len() == 0 {
            return CommitMessage { subject: String::new(), body: None };
        }
        let ghost before = lines@;
        let subject = lines.remove(0);
        assert(text::views(lines@) =~= all.drop_first());
        assert(subject@ == all[0]);
        if lines.len() == 0 {
            CommitMessage { subject, body: None }
        } else {
            CommitMessage { subject, body: Some(text::join(&lines, "\n")) }
        }
    }

    /// The message as one text.
    pub open spec fn text(self) -> Seq<char> {
        match self.body {
            Some(body) => self.subject@ + "\n"@ + body@,
            None => self.subject@,
        }
    }

    /// The message as one text.
    pub fn combine(&self) -> (r: String)
        ensures
            r@ == self.text(),
    {
        match &self.body {
            Some(body) => text::join3(self.subject.as_str(), "\n", body.as_str()),
            None => self.subject.clone(),
        }
    }
}

/// Who made a commit, and when.
#[derive(Clone, Debug, PartialEq, Eq)]
pub struct CommitSignature {
    pub name: String,
    pub email: String,
    /// the time, as it is shown
    pub date: String,
}

impl Default for CommitSignature {
    fn default() -> (r: CommitSignature)
        ensures
            r.name@.len() == 0,
            r.email@.len() == 0,
            r.date@.len() == 0,
    {
        CommitSignature { name: String::new(), email: String::new(), date: String::new() }
    }
}

/// The data of a commit.
#[derive(Clone, Debug, PartialEq, Eq)]
pub struct CommitDetails {
    pub author: CommitSignature,
    /// who committed it, if that is not the author
    pub committer: Option<CommitSignature>,
    pub message: Option<CommitMessage>,
    pub hash: String,
}

impl Default for CommitDetails {
    fn default() -> (r: CommitDetails)
        ensures
            r.author.name@.len() == 0,
            r.author.email@.len() == 0,
            r.author.date@.len() == 0,
            r.committer is None,
            r.message is None,
            r.hash@.len() == 0,
    {
        CommitDetails {
            author: CommitSignature::default(),
            committer: None,
            message: None,
            hash: String::new(),
        }
    }
}

/// The pane that has the focus.
#[derive(Clone, Copy, Debug, PartialEq, Eq, Structural)]
pub enum DetailsFocus {
    Info,
    Message,
}

/// The panes with the data and the message of a commit.
#[derive(Debug)]
pub struct DetailsComponent {
    pub data: Option<CommitDetails>,
    /// the names of the tags of the commit
    pub tags: Vec<String>,
    /// whether one of the panes has the focus
    pub details_focused: bool,
    /// which of them it is
    pub focus: DetailsFocus,
    pub current_width: u16,
    pub scroll: VerticalScroll,
    pub info_scroll: VerticalScroll,
    pub scroll_to_bottom_next_draw: bool,
}

// ------------------------------------------------------------------- message

/// The lines of a text that is wrapped to a width.
pub open spec fn wrapped_lines(s: Seq<char>, width: int) -> Seq<Seq<char>> {
    text::lines_of(
        unicode::wrapped_words(
            s,
            (if width < 1 {
                1
            } else {
                width
            }) as usize,
        ),
    )
}

/// The wrapped lines of a subject and of a body.
pub open spec fn message_lines(message: Option<CommitMessage>, width: int) -> (
    Seq<Seq<char>>,
    Seq<Seq<char>>,
) {
    match message {
        Some(message) => (
            wrapped_lines(message.subject@, width),
            match message.body {
                Some(body) => wrapped_lines(body@, width),
                None => Seq::empty(),
            },
        ),
        None => (Seq::empty(), Seq::empty()),
    }
}

/// The message of a commit, if its data is known.
pub open spec fn message_of(data: Option<CommitDetails>) -> Option<CommitMessage> {
    match data {
        Some(data) => data.message,
        None => None,
    }
}

fn wrap_lines(s: &str, width: usize) -> (r: Vec<String>)
    ensures
        text::views(r@) == wrapped_lines(s@, width as int),
{
    let width: usize = if width < 1 {
        1
    } else {
        width
    };
    text::lines(unicode::wrap_words(s, width).as_str())
}

/// A line of a message, as it is shown.
#[derive(Debug, PartialEq, Eq)]
pub struct MessageLine {
    pub content: String,
    /// whether it belongs to the subject, which is shown in bold
    pub bold: bool,
}

/// What a [`MessageLine`] holds.
pub struct MessageLineView {
    pub content: Seq<char>,
    pub bold: bool,
}

impl View for MessageLine {
    type V = MessageLineView;

    open spec fn view(&self) -> MessageLineView {
        MessageLineView { content: self.content@, bold: self.bold }
    }
}

// ------------------------------------------------------------------- data

/// The labels in front of the data of a commit.
#[derive(Debug)]
pub struct InfoLabels {
    pub author: String,
    pub date: String,
    pub committer: String,
    pub hash: String,
    pub tags: String,
}

/// A part of a line, with whether it is a label.
#[derive(Debug, PartialEq, Eq)]
pub struct InfoSpan {
    pub content: String,
    pub label: bool,
}

/// What an [`InfoSpan`] holds.
pub struct InfoSpanView {
    pub content: Seq<char>,
    pub label: bool,
}

impl View for InfoSpan {
    type V = InfoSpanView;

    open spec fn view(&self) -> InfoSpanView {
        InfoSpanView { content: self.content@, label: self.label }
    }
}

/// A line of data.
#[derive(Debug, PartialEq, Eq)]
pub struct InfoLine {
    pub spans: Vec<InfoSpan>,
}

impl View for InfoLine {
    type V = Seq<InfoSpanView>;

    open spec fn view(&self) -> Seq<InfoSpanView> {
        text::views(self.spans@)
    }
}

/// A label and what it stands for.
pub open spec fn info_line(label: Seq<char>, content: Seq<char>) -> Seq<InfoSpanView> {
    seq![InfoSpanView { content: label, label: true }, InfoSpanView { content, label: false }]
}

/// The first `n` names, with commas between them.
pub open spec fn tag_spans(tags: Seq<String>, n: int) -> Seq<InfoSpanView>
    decreases n,
{
    if n <= 0 {
        Seq::empty()
    } else {
        (if n > 1 {
            tag_spans(tags, n - 1).push(InfoSpanView { content: ", "@, label: false })
        } else {
            Seq::empty()
        }).push(InfoSpanView { content: tags[n - 1]@, label: false })
    }
}

pub open spec fn signature_lines(who: Seq<char>, signature: CommitSignature, date: Seq<char>) -> Seq<
    Seq<InfoSpanView>,
> {
    seq![
        info_line(who, signature.name@ + " <"@ + signature.email@ + ">"@),
        info_line(date, signature.date@),
    ]
}

/// The data of a commit, as it is shown: who wrote it and when, who committed
/// it if that was someone else, its hash, and its tags if it has any.
pub open spec fn info_lines(
    data: Option<CommitDetails>,
    tags: Seq<String>,
    labels: InfoLabels,
) -> Seq<Seq<InfoSpanView>> {
    match data {
        None => Seq::empty(),
        Some(data) => signature_lines(labels.author@, data.author, labels.date@) + (
        match data.committer {
            Some(committer) => signature_lines(labels.committer@, committer, labels.date@),
            None => Seq::empty(),
        }) + seq![info_line(labels.hash@, data.hash@)] + if tags.len() > 0 {
            seq![
                seq![InfoSpanView { content: labels.tags@, label: true }] + tag_spans(
                    tags,
                    tags.len() as int,
                ),
            ]
        } else {
            Seq::empty()
        },
    }
}

/// The text of a line of data.
pub open spec fn info_text(line: Seq<InfoSpanView>) -> Seq<char>
    decreases line.len(),
{
    if line.len() == 0 {
        Seq::empty()
    } else {
        info_text(line.drop_last()) + line.last().content
    }
}

pub open spec fn info_texts(lines: Seq<Seq<InfoSpanView>>) -> Seq<Seq<char>> {
    Seq::new(lines.len(), |i: int| info_text(lines[i]))
}

fn labelled(label: &str, content: String) -> (r: InfoLine)
    ensures
        r@ == info_line(label@, content@),
{
    let mut spans: Vec<InfoSpan> = Vec::new();
    spans.push(InfoSpan { content: label.to_owned(), label: true });
    spans.push(InfoSpan { content, label: false });
    let r = InfoLine { spans };
    assert(r@ =~= info_line(label@, content@));
    r
}

fn push_signature(out: &mut Vec<InfoLine>, who: &str, signature: &CommitSignature, date: &str)
    ensures
        text::views(final(out)@) == text::views(old(out)@) + signature_lines(
            who@,
            *signature,
            date@,
        ),
{
    let mut name = signature.name.clone();
    name.append(" <");
    name.append(signature.email.as_str());
    name.append(">");
    let first = labelled(who, name);
    let second = labelled(date, signature.date.clone());
    out.push(first);
    out.push(second);
    assert(text::views(out@) =~= text::views(old(out)@) + signature_lines(who@, *signature, date@));
}

fn text_of_info(line: &InfoLine) -> (r: String)
    ensures
        r@ == info_text(line@),
{
    let mut out = String::new();
    for i in 0..line.spans.len()
        invariant
            out@ == info_text(line@.take(i as int)),
    {
        assert(line@.take(i + 1).drop_last() =~= line@.take(i as int));
        out.append(line.spans[i].content.as_str());
    }
    assert(line@.take(line@.len() as int) =~= line@);
    out
}

/// What the panes show.
#[derive(Debug)]
pub struct DetailsDraw {
    pub info: Vec<InfoLine>,
    /// whether a sign tells that there is more data than shown
    pub info_more: bool,
    pub info_bar: bool,
    pub message: Vec<MessageLine>,
    /// whether a sign tells that there is more of the message than shown
    pub message_more: bool,
    pub message_bar: bool,
}

/// What a key press asks of the panes.
#[derive(Clone, Copy, Debug, PartialEq, Eq, Structural)]
pub enum DetailsIntent {
    Ignore,
    Copy,
    Scroll(ScrollType),
}

impl DetailsComponent {
    /// Panes without a commit.
    pub fn new(focused: bool) -> (r: DetailsComponent)
        ensures
            r.data is None,
            r.tags@.len() == 0,
            r.details_focused == focused,
            r.focus == DetailsFocus::Message,
            r.current_width == 0,
            r.scroll == VerticalScroll::at_start(),
            r.info_scroll == VerticalScroll::at_start(),
            !r.scroll_to_bottom_next_draw,
    {
        DetailsComponent {
            data: None,
            tags: Vec::new(),
            details_focused: focused,
            focus: DetailsFocus::Message,
            current_width: 0,
            scroll: VerticalScroll::new(),
            info_scroll: VerticalScroll::new(),
            scroll_to_bottom_next_draw: false,
        }
    }

    /// The panes with the focus on one of them: the data is shown from its
    /// start, the message from its end.
    pub open spec fn focused_on(self, focus: DetailsFocus) -> DetailsComponent {
        match focus {
            DetailsFocus::Info => DetailsComponent {
                info_scroll: self.info_scroll.to_top(),
                details_focused: true,
                focus,
                ..self
            },
            DetailsFocus::Message => DetailsComponent {
                scroll_to_bottom_next_draw: true,
                details_focused: true,
                focus,
                ..self
            },
        }
    }

    /// Give the focus to one of the panes.
    pub fn set_focus(&mut self, focus: DetailsFocus)
        ensures
            *final(self) == old(self).focused_on(focus),
    {
        match focus {
            DetailsFocus::Info => self.info_scroll.reset(),
            DetailsFocus::Message => {
                self.scroll_to_bottom_next_draw = true;
            },
        }
        self.details_focused = true;
        self.focus = focus;
    }

    /// The panes without the focus.
    pub open spec fn unfocused(self) -> DetailsComponent {
        DetailsComponent {
            details_focused: false,
            scroll: self.scroll.to_top(),
            info_scroll: self.info_scroll.to_top(),
            ..self
        }
    }

    /// Give the focus to the message, or take it from the panes.
    pub fn set_focused(&mut self, focus: bool)
        ensures
            *final(self) == if focus {
                old(self).focused_on(DetailsFocus::Message)
            } else {
                old(self).unfocused()
            },
    {
        self.details_focused = focus;
        if focus {
            self.set_focus(DetailsFocus::Message);
        } else {
            self.scroll.reset();
            self.info_scroll.reset();
        }
    }

    pub fn focused(&self) -> (r: bool)
        ensures
            r == self.details_focused,
    {
        self.details_focused
    }

    pub open spec fn on_info(self) -> bool {
        self.details_focused && self.focus == DetailsFocus::Info
    }

    pub open spec fn on_message(self) -> bool {
        self.details_focused && self.focus == DetailsFocus::Message
    }

    pub fn is_info_focused(&self) -> (r: bool)
        ensures
            r == self.on_info(),
    {
        self.details_focused && self.focus == DetailsFocus::Info
    }

    pub fn is_message_focused(&self) -> (r: bool)
        ensures
            r == self.on_message(),
    {
        self.details_focused && self.focus == DetailsFocus::Message
    }

    /// Show another commit, from the start.
    pub fn set_commit(&mut self, data: Option<CommitDetails>, tags: Option<Vec<String>>)
        ensures
            final(self).data == data,
            final(self).tags@ == match tags {
                Some(tags) => tags@,
                None => Seq::empty(),
            },
            *final(self) == (DetailsComponent {
                data,
                tags: final(self).tags,
                scroll: old(self).scroll.to_top(),
                info_scroll: old(self).info_scroll.to_top(),
                ..*old(self)
            }),
    {
        self.data = data;
        self.scroll.reset();
        self.info_scroll.reset();
        self.tags = match tags {
            Some(tags) => tags,
            None => Vec::new(),
        };
    }

    /// The lines of the subject and of the body of a message, wrapped to a
    /// width.
    pub fn wrap_commit_details(message: &CommitMessage, width: usize) -> (r: (
        Vec<String>,
        Vec<String>,
    ))
        ensures
            text::views(r.0@) == message_lines(Some(*message), width as int).0,
            text::views(r.1@) == message_lines(Some(*message), width as int).1,
    {
        let title = wrap_lines(message.subject.as_str(), width);
        match &message.body {
            Some(body) => (title, wrap_lines(body.as_str(), width)),
            None => {
                let none: Vec<String> = Vec::new();
                assert(text::views(none@) =~= Seq::empty());
                (title, none)
            },
        }
    }

    fn get_wrapped_lines(data: Option<&CommitDetails>, width: usize) -> (r: (
        Vec<String>,
        Vec<String>,
    ))
        ensures
            ({
                let message = match data {
                    Some(data) => data.message,
                    None => None,
                };
                &&& text::views(r.0@) == message_lines(message, width as int).0
                &&& text::views(r.1@) == message_lines(message, width as int).1
            }),
    {
        match data {
            Some(data) => match &data.message {
                Some(message) => {
                    return Self::wrap_commit_details(message, width);
                },
                None => {},
            },
            None => {},
        }
        let title: Vec<String> = Vec::new();
        let body: Vec<String> = Vec::new();
        assert(text::views(title@) =~= Seq::empty());
        assert(text::views(body@) =~= Seq::empty());
        (title, body)
    }

    /// How many lines the message of a commit takes up in a width.
    pub fn get_number_of_lines(details: Option<&CommitDetails>, width: usize) -> (r: usize)
        ensures
            ({
                let message = match details {
                    Some(data) => data.message,
                    None => None,
                };
                let lines = message_lines(message, width as int);
                r == lines.0.len() + lines.1.len()
            }),
    {
        let (title, body) = Self::get_wrapped_lines(details, width);
        let mut all = title;
        let mut rest = body;
        all.append(&mut rest);
        all.len()
    }

    /// The lines of the message that are shown.
    pub open spec fn shown_message(self, width: int, height: int) -> Seq<MessageLineView> {
        let lines = message_lines(message_of(self.data), width);
        let all = lines.0 + lines.1;
        let top = self.scroll.top as int;
        Seq::new(
            ui::window(all.len() as int, top, height) as nat,
            |k: int| MessageLineView { content: all[top + k], bold: top + k < lines.0.len() },
        )
    }

    /// The lines of the message that are shown.
    pub fn get_wrapped_text_message(&self, width: usize, height: usize) -> (r: Vec<MessageLine>)
        ensures
            text::views(r@) == self.shown_message(width as int, height as int),
    {
        let (title, body) = Self::get_wrapped_lines(self.data.as_ref(), width);
        let ghost lines = message_lines(message_of(self.data), width as int);
        let bold: usize = title.len();
        let mut all = title;
        let mut rest = body;
        all.append(&mut rest);
        assert(text::views(all@) =~= lines.0 + lines.1);
        let top: usize = self.scroll.get_top();
        let count: usize = ui::window_len(all.len(), top, height);
        let mut out: Vec<MessageLine> = Vec::new();
        let n: usize = all.len();
        for k in 0..count
            invariant
                n == all@.len(),
                count > 0 ==> top + count <= n,
                text::views(all@) == lines.0 + lines.1,
                bold == lines.0.len(),
                out@.len() == k,
                forall|j: int|
                    0 <= j < k ==> (#[trigger] out@[j])@ == (MessageLineView {
                        content: (lines.0 + lines.1)[top + j],
                        bold: top + j < bold,
                    }),
        {
            assert((lines.0 + lines.1)[top + k] == all@[top + k]@);
            out.push(MessageLine { content: all[top + k].clone(), bold: top + k < bold });
        }
        assert(text::views(out@) =~= self.shown_message(width as int, height as int));
        out
    }

    /// The data of the commit, as it is shown.
    pub fn get_text_info(&self, labels: &InfoLabels) -> (r: Vec<InfoLine>)
        ensures
            text::views(r@) == info_lines(self.data, self.tags@, *labels),
    {
        let mut out: Vec<InfoLine> = Vec::new();
        assert(text::views(out@) =~= Seq::empty());
        match &self.data {
            None => {},
            Some(data) => {
                push_signature(
                    &mut out,
                    labels.author.as_str(),
                    &data.author,
                    labels.date.as_str(),
                );
                match &data.committer {
                    Some(committer) => push_signature(
                        &mut out,
                        labels.committer.as_str(),
                        committer,
                        labels.date.as_str(),
                    ),
                    None => {},
                }
                let ghost first = text::views(out@);
                let hash = labelled(labels.hash.as_str(), data.hash.clone());
                proof {
                    text::lemma_views_push(out@, hash);
                }
                out.push(hash);
                if self.tags.len() > 0 {
                    let mut spans: Vec<InfoSpan> = Vec::new();
                    spans.push(InfoSpan { content: labels.tags.clone(), label: true });
                    let ghost label = InfoSpanView { content: labels.tags@, label: true };
                    assert(text::views(spans@) =~= seq![label] + tag_spans(self.tags@, 0));
                    for i in 0..self.tags.len()
                        invariant
                            text::views(spans@) == seq![label] + tag_spans(self.tags@, i as int),
                    {
                        if i > 0 {
                            let comma = InfoSpan { content: ", ".to_owned(), label: false };
                            proof {
                                text::lemma_views_push(spans@, comma);
                            }
                            spans.push(comma);
                        }
                        let tag = InfoSpan { content: self.tags[i].clone(), label: false };
                        proof {
                            text::lemma_views_push(spans@, tag);
                        }
                        spans.push(tag);
                        assert(text::views(spans@) =~= seq![label] + tag_spans(
                            self.tags@,
                            i + 1,
                        ));
                    }
                    let line = InfoLine { spans };
                    proof {
                        text::lemma_views_push(out@, line);
                    }
                    out.push(line);
                }
                assert(text::views(out@) =~= info_lines(self.data, self.tags@, *labels));
            },
        }
        out
    }

    /// What copying the data of the commit copies.
    pub fn info_to_copy(&self, labels: &InfoLabels) -> (r: Option<String>)
        ensures
            match r {
                Some(s) => self.data is Some && s@ == text::joined(
                    info_texts(info_lines(self.data, self.tags@, *labels)),
                    "\n"@,
                ),
                None => self.data is None,
            },
    {
        if self.data.is_none() {
            return None;
        }
        let lines = self.get_text_info(labels);
        let mut texts: Vec<String> = Vec::new();
        for i in 0..lines.len()
            invariant
                texts@.len() == i,
                forall|j: int| 0 <= j < i ==> (#[trigger] texts@[j])@ == info_text(lines@[j]@),
        {
            texts.push(text_of_info(&lines[i]));
        }
        assert(text::views(texts@) =~= info_texts(
            info_lines(self.data, self.tags@, *labels),
        )) by {
            assert forall|i: int| 0 <= i < texts@.len() implies text::views(texts@)[i]
                == info_texts(info_lines(self.data, self.tags@, *labels))[i] by {
                assert(text::views(lines@)[i] == lines@[i]@);
            }
        }
        Some(text::join(&texts, "\n"))
    }

    /// What copying the message of the commit copies.
    pub fn message_to_copy(&self) -> (r: Option<String>)
        ensures
            match r {
                Some(s) => message_of(self.data) matches Some(message) && s@ == message.text(),
                None => message_of(self.data) is None,
            },
    {
        match &self.data {
            Some(data) => match &data.message {
                Some(message) => Some(message.combine()),
                None => None,
            },
            None => None,
        }
    }

    // -------------------------------------------------------------- drawing

    /// How many rows the pane with the data gets.
    pub fn info_len(&self) -> (r: u16)
        ensures
            r == if self.on_info() {
                12u16
            } else {
                8u16
            },
    {
        if self.is_info_focused() {
            12
        } else {
            8
        }
    }

    /// The panes after they were drawn.
    pub open spec fn drawn(
        self,
        info_height: u16,
        width: u16,
        height: u16,
        labels: InfoLabels,
    ) -> DetailsComponent {
        let info_rows = sub2(info_height);
        let columns = sub2(width);
        let rows = sub2(height);
        let infos = info_lines(self.data, self.tags@, labels).len();
        let lines = message_lines(message_of(self.data), columns as int);
        let count = lines.0.len() + lines.1.len();
        let scroll = self.scroll.fitted(self.scroll.top, count as usize, rows as usize);
        DetailsComponent {
            info_scroll: self.info_scroll.fitted(
                self.info_scroll.top,
                infos as usize,
                info_rows as usize,
            ),
            current_width: columns,
            scroll: if self.scroll_to_bottom_next_draw {
                scroll.moved(ScrollType::End)
            } else {
                scroll
            },
            scroll_to_bottom_next_draw: false,
            ..self
        }
    }

    /// Draw the panes into areas of the given sizes, borders included.
    pub fn draw(&mut self, info_height: u16, width: u16, height: u16, labels: &InfoLabels) -> (r:
        DetailsDraw)
        ensures
            *final(self) == old(self).drawn(info_height, width, height, *labels),
            ({
                let infos = info_lines(old(self).data, old(self).tags@, *labels);
                let lines = message_lines(message_of(old(self).data), sub2(width) as int);
                let top = final(self).info_scroll.top as int;
                &&& text::views(r.info@) == infos.subrange(
                    if top <= infos.len() {
                        top
                    } else {
                        infos.len() as int
                    },
                    (if top <= infos.len() {
                        top
                    } else {
                        infos.len() as int
                    }) + ui::window(infos.len() as int, top, sub2(info_height) as int),
                )
                &&& r.info_more == (!old(self).on_info() && sub2(info_height) < infos.len())
                &&& r.info_bar == old(self).on_info()
                &&& text::views(r.message@) == final(self).shown_message(
                    sub2(width) as int,
                    sub2(height) as int,
                )
                &&& r.message_more == (!old(self).on_message() && sub2(height) < lines.0.len()
                    + lines.1.len())
                &&& r.message_bar == old(self).on_message()
            }),
    {
        let info_focused = self.is_info_focused();
        let info_rows: usize = info_height.saturating_sub(2) as usize;
        let mut infos = self.get_text_info(labels);
        let ghost all = info_lines(self.data, self.tags@, *labels);
        let info_count: usize = infos.len();
        assert(info_count == all.len());
        self.info_scroll.update_no_selection(info_count, info_rows);
        let top: usize = self.info_scroll.get_top();
        let count: usize = ui::window_len(info_count, top, info_rows);
        let from: usize = if top <= info_count {
            top
        } else {
            info_count
        };
        let mut shown = infos.split_off(from);
        assert(text::views(shown@) =~= all.subrange(from as int, all.len() as int));
        shown.truncate(count);
        assert(text::views(shown@) =~= all.subrange(from as int, from + count));
        let columns: u16 = width.saturating_sub(2);
        let rows: u16 = height.saturating_sub(2);
        self.current_width = columns;
        let number_of_lines: usize = Self::get_number_of_lines(
            self.data.as_ref(),
            columns as usize,
        );
        self.scroll.update_no_selection(number_of_lines, rows as usize);
        if self.scroll_to_bottom_next_draw {
            self.scroll.move_top(ScrollType::End);
            self.scroll_to_bottom_next_draw = false;
        }
        let message_focused = self.is_message_focused();
        DetailsDraw {
            info: shown,
            info_more: !info_focused && info_rows < info_count,
            info_bar: info_focused,
            message: self.get_wrapped_text_message(columns as usize, rows as usize),
            message_more: !message_focused && (rows as usize) < number_of_lines,
            message_bar: message_focused,
        }
    }

    // -------------------------------------------------------------- commands

    /// The commands that the panes offer.
    pub open spec fn command_list(self, force_all: bool) -> Seq<CommandInfo> {
        let active = self.details_focused || force_all;
        let lines = message_lines(message_of(self.data), self.current_width as int);
        match self.focus {
            DetailsFocus::Message => seq![
                CommandInfo::of(
                    Command::NavigateCommitMessage,
                    lines.0.len() + lines.1.len() > 0,
                    active,
                ).placed(CommandOrder::Navigation),
                CommandInfo::of(
                    Command::CopyMessage,
                    message_of(self.data) is Some,
                    active,
                ).placed(CommandOrder::Navigation),
            ],
            DetailsFocus::Info => seq![
                CommandInfo::of(
                    Command::NavigateCommitMessage,
                    self.data is Some,
                    active,
                ).placed(CommandOrder::Navigation),
                CommandInfo::of(Command::CopyInfo, self.data is Some, active).placed(
                    CommandOrder::Navigation,
                ),
            ],
        }
    }

    /// Add the commands that the panes offer.
    pub fn commands(&self, out: &mut Vec<CommandInfo>, force_all: bool) -> (r: CommandBlocking)
        ensures
            final(out)@ == old(out)@ + self.command_list(force_all),
            r == CommandBlocking::PassingOn,
    {
        let number_of_lines: usize = Self::get_number_of_lines(
            self.data.as_ref(),
            self.current_width as usize,
        );
        let active = self.details_focused || force_all;
        match self.focus {
            DetailsFocus::Message => {
                out.push(
                    CommandInfo::new(
                        Command::NavigateCommitMessage,
                        number_of_lines > 0,
                        active,
                    ).order(CommandOrder::Navigation),
                );
                let has_message = match &self.data {
                    Some(data) => data.message.is_some(),
                    None => false,
                };
                out.push(
                    CommandInfo::new(Command::CopyMessage, has_message, active).order(
                        CommandOrder::Navigation,
                    ),
                );
            },
            DetailsFocus::Info => {
                out.push(
                    CommandInfo::new(
                        Command::NavigateCommitMessage,
                        self.data.is_some(),
                        active,
                    ).order(CommandOrder::Navigation),
                );
                out.push(
                    CommandInfo::new(Command::CopyInfo, self.data.is_some(), active).order(
                        CommandOrder::Navigation,
                    ),
                );
            },
        }
        assert(out@ =~= old(out)@ + self.command_list(force_all));
        CommandBlocking::PassingOn
    }

    // -------------------------------------------------------------- keys

    /// What a key press asks of the panes.
    pub open spec fn intent(self, press: KeyPress) -> DetailsIntent {
        if !self.details_focused {
            DetailsIntent::Ignore
        } else if press.has(Key::Copy) {
            DetailsIntent::Copy
        } else if press.has(Key::MoveUp) || press.has(Key::PopupUp) {
            DetailsIntent::Scroll(ScrollType::Up)
        } else if press.has(Key::MoveDown) {
            DetailsIntent::Scroll(ScrollType::Down)
        } else if press.has(Key::PageUp) {
            DetailsIntent::Scroll(ScrollType::PageUp)
        } else if press.has(Key::PageDown) {
            DetailsIntent::Scroll(ScrollType::PageDown)
        } else if press.has(Key::Home) || press.has(Key::ShiftUp) {
            DetailsIntent::Scroll(ScrollType::Home)
        } else if press.has(Key::End) || press.has(Key::ShiftDown) {
            DetailsIntent::Scroll(ScrollType::End)
        } else {
            DetailsIntent::Ignore
        }
    }

    fn key_intent(&self, press: &KeyPress) -> (r: DetailsIntent)
        ensures
            r == self.intent(*press),
    {
        if !self.details_focused {
            DetailsIntent::Ignore
        } else if press.is(Key::Copy) {
            DetailsIntent::Copy
        } else if press.is(Key::MoveUp) || press.is(Key::PopupUp) {
            DetailsIntent::Scroll(ScrollType::Up)
        } else if press.is(Key::MoveDown) {
            DetailsIntent::Scroll(ScrollType::Down)
        } else if press.is(Key::PageUp) {
            DetailsIntent::Scroll(ScrollType::PageUp)
        } else if press.is(Key::PageDown) {
            DetailsIntent::Scroll(ScrollType::PageDown)
        } else if press.is(Key::Home) || press.is(Key::ShiftUp) {
            DetailsIntent::Scroll(ScrollType::Home)
        } else if press.is(Key::End) || press.is(Key::ShiftDown) {
            DetailsIntent::Scroll(ScrollType::End)
        } else {
            DetailsIntent::Ignore
        }
    }

    /// The panes after the one with the focus was scrolled; without a commit
    /// there is nothing to scroll.
    pub open spec fn scrolled(self, how: ScrollType) -> DetailsComponent {
        if self.data is None {
            self
        } else {
            match self.focus {
                DetailsFocus::Message => DetailsComponent {
                    scroll: self.scroll.moved(how),
                    ..self
                },
                DetailsFocus::Info => DetailsComponent {
                    info_scroll: self.info_scroll.moved(how),
                    ..self
                },
            }
        }
    }

    fn move_scroll_top(&mut self, how: ScrollType) -> (moved: bool)
        ensures
            *final(self) == old(self).scrolled(how),
            moved == (final(self).scroll.top != old(self).scroll.top || final(self).info_scroll.top != old(self).info_scroll.top),
    {
        if self.data.is_none() {
            return false;
        }
        match self.focus {
            DetailsFocus::Message => self.scroll.move_top(how),
            DetailsFocus::Info => self.info_scroll.move_top(how),
        }
    }

    /// What a key press copies.
    pub open spec fn copied(self, labels: InfoLabels) -> Option<Seq<char>> {
        match self.focus {
            DetailsFocus::Message => match message_of(self.data) {
                Some(message) => Some(message.text()),
                None => None,
            },
            DetailsFocus::Info => if self.data is Some {
                Some(
                    text::joined(
                        info_texts(info_lines(self.data, self.tags@, labels)),
                        "\n"@,
                    ),
                )
            } else {
                None
            },
        }
    }

    /// React to a key press. The text is what has to be copied.
    pub fn event(&mut self, press: &KeyPress, labels: &InfoLabels) -> (r: (
        EventState,
        Option<String>,
    ))
        ensures
            match old(self).intent(*press) {
                DetailsIntent::Ignore => {
                    &&& *final(self) == *old(self)
                    &&& r.0 == EventState::NotConsumed
                    &&& r.1 is None
                },
                DetailsIntent::Copy => {
                    &&& *final(self) == *old(self)
                    &&& r.0 == EventState::Consumed
                    &&& match r.1 {
                        Some(s) => old(self).copied(*labels) == Some(s@),
                        None => old(self).copied(*labels) is None,
                    }
                },
                DetailsIntent::Scroll(how) => {
                    &&& *final(self) == old(self).scrolled(how)
                    &&& r.0 == EventState::of(
                        final(self).scroll.top != old(self).scroll.top || final(self).info_scroll.top != old(self).info_scroll.top,
                    )
                    &&& r.1 is None
                },
            },
    {
        match self.key_intent(press) {
            DetailsIntent::Ignore => (EventState::NotConsumed, None),
            DetailsIntent::Copy => {
                let copied = match self.focus {
                    DetailsFocus::Message => self.message_to_copy(),
                    DetailsFocus::Info => self.info_to_copy(labels),
                };
                (EventState::Consumed, copied)
            },
            DetailsIntent::Scroll(how) => {
                let moved = self.move_scroll_top(how);
                (EventState::from_bool(moved), None)
            },
        }
    }
}

/// What is left of a size without the borders.
pub open spec fn sub2(n: u16) -> u16 {
    if n >= 2 {
        (n - 2) as u16
    } else {
        0
    }
}

/// One of the panes has the focus if and only if the panel has it.
pub proof fn lemma_at_most_one_pane_is_focused(c: DetailsComponent)
    ensures
        !(c.on_info() && c.on_message()),
        c.details_focused ==> c.on_info() || c.on_message(),
        !c.unfocused().on_info() && !c.unfocused().on_message(),
{
}

/// A message is its subject and, on the lines below, its body.
pub proof fn lemma_messages_are_put_together(m: CommitMessage)
    ensures
        m.text().take(m.subject@.len() as int) == m.subject@,
        m.body is None ==> m.text() == m.subject@,
        m.body is Some ==> {
            &&& m.text().len() == m.subject@.len() + 1 + m.body->0@.len()
            &&& m.text()[m.subject@.len() as int] == '\n'
            &&& m.text().skip(m.subject@.len() as int + 1) == m.body->0@
        },
{
    reveal_strlit("\n");
    assert(m.text().take(m.subject@.len() as int) =~= m.subject@);
    if m.body is Some {
        assert(m.text().skip(m.subject@.len() as int + 1) =~= m.body->0@);
    }
}

/// What is drawn of the message are the rows from the top on: first those of
/// the subject, which are bold, then those of the body.
pub proof fn lemma_message_rows(c: DetailsComponent, width: int, height: int, k: int)
    requires
        0 <= k < c.shown_message(width, height).len(),
        0 <= height,
    ensures
        ({
            let lines = message_lines(message_of(c.data), width);
            let row = c.shown_message(width, height)[k];
            let at = c.scroll.top + k;
            &&& k < height
            &&& at < lines.0.len() + lines.1.len()
            &&& row.bold <==> at < lines.0.len()
            &&& row.bold ==> row.content == lines.0[at]
            &&& !row.bold ==> row.content == lines.1[at - lines.0.len()]
        }),
{
}

/// Nothing that fits is left out.
pub proof fn lemma_message_rows_are_complete(c: DetailsComponent, width: int, height: int)
    requires
        0 <= height,
    ensures
        ({
            let lines = message_lines(message_of(c.data), width);
            let n = c.shown_message(width, height).len();
            n == height || n + c.scroll.top >= lines.0.len() + lines.1.len()
        }),
{
}

/// The rows are those of the subject and of the body, each wrapped to the
/// width, and there are none without a message.
pub proof fn lemma_subjects_and_bodies_are_wrapped(m: CommitMessage, width: int)
    requires
        1 <= width <= usize::MAX,
    ensures
        message_lines(Some(m), width).0 == text::lines_of(
            unicode::wrapped_words(m.subject@, width as usize),
        ),
        m.body is Some ==> message_lines(Some(m), width).1 == text::lines_of(
            unicode::wrapped_words(m.body->0@, width as usize),
        ),
        m.body is None ==> message_lines(Some(m), width).1.len() == 0,
        message_lines(None, width).0.len() == 0,
        message_lines(None, width).1.len() == 0,
{
}

/// Tags stand one after the other, with a comma between any two.
pub proof fn lemma_tags_are_listed(tags: Seq<String>, n: int, k: int)
    requires
        0 <= k < n <= tags.len(),
    ensures
        tag_spans(tags, n).len() == 2 * n - 1,
        tag_spans(tags, n)[2 * k].content == tags[k]@,
        k + 1 < n ==> tag_spans(tags, n)[2 * k + 1].content == ", "@,
        !tag_spans(tags, n)[2 * k].label,
    decreases n,
{
    if n > 1 {
        lemma_tags_are_listed(
            tags,
            n - 1,
            if k < n - 1 {
                k
            } else {
                0
            },
        );
    } else {
        reveal_with_fuel(tag_spans, 2);
    }
}

/// The data of a commit: who made it and when, who put it there where that is
/// somebody else, its hash, and its tags where it has some.
pub proof fn lemma_what_is_told_of_a_commit(
    data: CommitDetails,
    tags: Seq<String>,
    labels: InfoLabels,
)
    ensures
        ({
            let lines = info_lines(Some(data), tags, labels);
            let c: int = if data.committer is Some {
                2
            } else {
                0
            };
            let t: int = if tags.len() > 0 {
                1
            } else {
                0
            };
            &&& lines.len() == 3 + c + t
            &&& info_text(lines[0]) == labels.author@ + (data.author.name@ + " <"@
                + data.author.email@ + ">"@)
            &&& info_text(lines[1]) == labels.date@ + data.author.date@
            &&& data.committer is Some ==> info_text(lines[2]) == labels.committer@ + (
            data.committer->0.name@ + " <"@ + data.committer->0.email@ + ">"@)
            &&& data.committer is Some ==> info_text(lines[3]) == labels.date@
                + data.committer->0.date@
            &&& info_text(lines[2 + c]) == labels.hash@ + data.hash@
            &&& tags.len() > 0 ==> lines.last()[0].content == labels.tags@
            &&& tags.len() > 0 ==> lines.last().skip(1) == tag_spans(tags, tags.len() as int)
        }),
{
    let lines = info_lines(Some(data), tags, labels);
    lemma_lines_of_label_and_content(
        labels.author@,
        data.author.name@ + " <"@ + data.author.email@ + ">"@,
    );
    lemma_lines_of_label_and_content(labels.date@, data.author.date@);
    lemma_lines_of_label_and_content(labels.hash@, data.hash@);
    if data.committer is Some {
        let who = data.committer->0;
        lemma_lines_of_label_and_content(
            labels.committer@,
            who.name@ + " <"@ + who.email@ + ">"@,
        );
        lemma_lines_of_label_and_content(labels.date@, who.date@);
    }
    if tags.len() > 0 {
        assert(lines.last().skip(1) =~= tag_spans(tags, tags.len() as int));
    }
}

/// A line is read as its label and its content.
pub proof fn lemma_lines_of_label_and_content(label: Seq<char>, content: Seq<char>)
    ensures
        info_text(info_line(label, content)) == label + content,
        info_line(label, content)[0].label,
        !info_line(label, content)[1].label,
{
    let line = info_line(label, content);
    reveal_with_fuel(info_text, 3);
    assert(line.drop_last().drop_last() =~= Seq::empty());
    assert(info_text(line) =~= label + content);
}

/// Nothing is told where no commit is shown.
pub proof fn lemma_nothing_is_told_of_no_commit(
    c: DetailsComponent,
    tags: Seq<String>,
    labels: InfoLabels,
)
    ensures
        info_lines(None, tags, labels).len() == 0,
        c.data is None ==> c.copied(labels) is None,
{
}

/// The part that has the focus is copied: the message as it is, or the lines
/// of the data as they are drawn.
pub proof fn lemma_the_focused_part_is_copied(c: DetailsComponent, labels: InfoLabels)
    requires
        c.data is Some,
    ensures
        c.focus == DetailsFocus::Message && c.data->0.message is Some ==> c.copied(labels) == Some(
            c.data->0.message->0.text(),
        ),
        c.focus == DetailsFocus::Message && c.data->0.message is None ==> c.copied(labels) is None,
        c.focus == DetailsFocus::Info ==> c.copied(labels) is Some,
        c.focus == DetailsFocus::Info ==> c.copied(labels)->0 == text::joined(
            info_texts(info_lines(c.data, c.tags@, labels)),
            "\n"@,
        ),
{
}

/// Each key scrolls its own way, and only a pane with the focus listens.
pub proof fn lemma_keys_of_the_panes(c: DetailsComponent, press: KeyPress)
    ensures
        !c.details_focused ==> c.intent(press) is Ignore,
        c.details_focused ==> {
            &&& press.is_only(Key::Copy) ==> c.intent(press) is Copy
            &&& press.is_only(Key::MoveUp) ==> c.intent(press) == DetailsIntent::Scroll(
                ScrollType::Up,
            )
            &&& press.is_only(Key::PopupUp) ==> c.intent(press) == DetailsIntent::Scroll(
                ScrollType::Up,
            )
            &&& press.is_only(Key::MoveDown) ==> c.intent(press) == DetailsIntent::Scroll(
                ScrollType::Down,
            )
            &&& press.is_only(Key::PageUp) ==> c.intent(press) == DetailsIntent::Scroll(
                ScrollType::PageUp,
            )
            &&& press.is_only(Key::PageDown) ==> c.intent(press) == DetailsIntent::Scroll(
                ScrollType::PageDown,
            )
            &&& press.is_only(Key::Home) ==> c.intent(press) == DetailsIntent::Scroll(
                ScrollType::Home,
            )
            &&& press.is_only(Key::ShiftUp) ==> c.intent(press) == DetailsIntent::Scroll(
                ScrollType::Home,
            )
            &&& press.is_only(Key::End) ==> c.intent(press) == DetailsIntent::Scroll(
                ScrollType::End,
            )
            &&& press.is_only(Key::ShiftDown) ==> c.intent(press) == DetailsIntent::Scroll(
                ScrollType::End,
            )
        },
        c.intent(press) is Copy ==> press.has(Key::Copy),
{
}

/// Only the pane with the focus is scrolled.
pub proof fn lemma_one_pane_is_scrolled(c: DetailsComponent, how: ScrollType)
    ensures
        c.scrolled(how).data == c.data,
        c.data is None ==> c.scrolled(how) == c,
        c.focus == DetailsFocus::Message ==> c.scrolled(how).info_scroll == c.info_scroll,
        c.focus == DetailsFocus::Info ==> c.scrolled(how).scroll == c.scroll,
        c.focus == DetailsFocus::Message && c.data is Some ==> c.scrolled(how).scroll
            == c.scroll.moved(how),
        c.focus == DetailsFocus::Info && c.data is Some ==> c.scrolled(how).info_scroll
            == c.info_scroll.moved(how),
{
}

/// A pane that gets the focus from above starts at its top, one that gets it
/// from below at its end; without the focus both start at their top.
pub proof fn lemma_where_panes_start(
    c: DetailsComponent,
    info_height: u16,
    width: u16,
    height: u16,
    labels: InfoLabels,
)
    ensures
        c.focused_on(DetailsFocus::Info).on_info(),
        c.focused_on(DetailsFocus::Info).info_scroll.top == 0,
        c.focused_on(DetailsFocus::Message).on_message(),
        c.unfocused().scroll.top == 0,
        c.unfocused().info_scroll.top == 0,
        !c.drawn(info_height, width, height, labels).scroll_to_bottom_next_draw,
        ({
            let after = c.focused_on(DetailsFocus::Message).drawn(
                info_height,
                width,
                height,
                labels,
            );
            after.scroll.top == after.scroll.max_top
        }),
{
}

/// A pane loses a row and a column to its border on either side.
pub proof fn lemma_borders_take_room(
    c: DetailsComponent,
    info_height: u16,
    width: u16,
    height: u16,
    labels: InfoLabels,
)
    requires
        2 <= info_height,
        2 <= width,
        2 <= height,
    ensures
        ({
            let after = c.drawn(info_height, width, height, labels);
            &&& after.current_width + 2 == width
            &&& after.scroll.visual_height + 2 == height
            &&& after.info_scroll.visual_height + 2 == info_height
            &&& after.data == c.data
            &&& after.tags == c.tags
            &&& after.focus == c.focus
            &&& after.details_focused == c.details_focused
        }),
{
}

} // verus!
