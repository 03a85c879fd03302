//! The log of what HEAD pointed to.
use crate::asyncgit::sync::CommitId;
use crate::text;
use crate::unicode;
use vstd::prelude::*;
use vstd::string::*;

verus! {

/// What moved HEAD.
#[derive(Debug, PartialEq, Eq)]
pub enum ReflogAction {
    Commit,
    Checkout { from: Option<String>, to: Option<String> },
    Reset { to: Option<String> },
    Rebase,
    Merge,
    Pull,
    Clone,
    Branch,
    Amend,
    CherryPick,
    Unknown,
}

/// What a [`ReflogAction`] holds.
pub enum ReflogActionView {
    Commit,
    Checkout { from: Option<Seq<char>>, to: Option<Seq<char>> },
    Reset { to: Option<Seq<char>> },
    Rebase,
    Merge,
    Pull,
    Clone,
    Branch,
    Amend,
    CherryPick,
    Unknown,
}

pub open spec fn text_of(s: Option<String>) -> Option<Seq<char>> {
    match s {
        Some(s) => Some(s@),
        None => None,
    }
}

impl View for ReflogAction {
    type V = ReflogActionView;

    open spec fn view(&self) -> ReflogActionView {
        match *self {
            ReflogAction::Commit => ReflogActionView::Commit,
            ReflogAction::Checkout { from, to } => ReflogActionView::Checkout {
                from: text_of(from),
                to: text_of(to),
            },
            ReflogAction::Reset { to } => ReflogActionView::Reset { to: text_of(to) },
            ReflogAction::Rebase => ReflogActionView::Rebase,
            ReflogAction::Merge => ReflogActionView::Merge,
            ReflogAction::Pull => ReflogActionView::Pull,
            ReflogAction::Clone => ReflogActionView::Clone,
            ReflogAction::Branch => ReflogActionView::Branch,
            ReflogAction::Amend => ReflogActionView::Amend,
            ReflogAction::CherryPick => ReflogActionView::CherryPick,
            ReflogAction::Unknown => ReflogActionView::Unknown,
        }
    }
}

/// What follows a word, without blanks around it; everything if the text does
/// not start with the word.
pub open spec fn after(s: Seq<char>, word: Seq<char>) -> Seq<char> {
    text::trimmed(
        if text::starts(s, word) {
            s.skip(word.len() as int)
        } else {
            s
        },
    )
}

fn text_after(s: &str, word: &str) -> (r: String)
    ensures
        r@ == after(s@, word@),
{
    match text::strip_prefix(s, word) {
        Some(rest) => text::trim(rest.as_str()),
        None => text::trim(s),
    }
}

/// Where a checkout came from and went to: what stands on both sides of the
/// only "to".
pub open spec fn moved(rest: Seq<char>) -> ReflogActionView {
    let at = text::matches_from(rest, " to "@, 0);
    if at.len() == 1 {
        ReflogActionView::Checkout {
            from: Some(text::trimmed(rest.take(at[0]))),
            to: Some(text::trimmed(rest.skip(at[0] + 4))),
        }
    } else {
        ReflogActionView::Checkout { from: None, to: None }
    }
}

pub open spec fn checkout(message: Seq<char>) -> ReflogActionView {
    let rest = after(message, "checkout:"@);
    if text::starts(rest, "moving from"@) {
        moved(rest.skip(11))
    } else {
        ReflogActionView::Checkout { from: None, to: Some(rest) }
    }
}

pub open spec fn reset(message: Seq<char>) -> ReflogActionView {
    let rest = after(message, "reset:"@);
    ReflogActionView::Reset {
        to: Some(
            if text::starts(rest, "moving to"@) {
                text::trimmed(rest.skip(9))
            } else {
                rest
            },
        ),
    }
}

/// What a message says. `lower` is the message in lower case.
pub open spec fn action(message: Seq<char>, lower: Seq<char>) -> ReflogActionView {
    if message.len() == 0 {
        ReflogActionView::Unknown
    } else if text::starts(lower, "commit:"@) {
        ReflogActionView::Commit
    } else if text::starts(lower, "checkout:"@) {
        checkout(message)
    } else if text::starts(lower, "reset:"@) {
        reset(message)
    } else if text::starts(lower, "rebase"@) {
        ReflogActionView::Rebase
    } else if text::starts(lower, "merge:"@) {
        ReflogActionView::Merge
    } else if text::starts(lower, "pull"@) {
        ReflogActionView::Pull
    } else if text::starts(lower, "clone:"@) {
        ReflogActionView::Clone
    } else if text::starts(lower, "branch:"@) {
        ReflogActionView::Branch
    } else if text::starts(lower, "amend:"@) {
        ReflogActionView::Amend
    } else if text::starts(lower, "cherry-pick:"@) {
        ReflogActionView::CherryPick
    } else {
        ReflogActionView::Unknown
    }
}

fn parse_checkout(message: &str) -> (r: ReflogAction)
    ensures
        r@ == checkout(message@),
{
    proof {
        reveal_strlit("moving from");
        reveal_strlit(" to ");
    }
    let rest = text_after(message, "checkout:");
    match text::strip_prefix(rest.as_str(), "moving from") {
        Some(moving) => {
            let chars = text::chars_of(moving.as_str());
            let at = text::match_indices(&chars, &text::chars_of(" to "));
            proof {
                text::lemma_matches_fit(moving@, " to "@, 0);
            }
            if at.len() == 1 {
                assert(text::matches_from(moving@, " to "@, 0)[0] == at@[0]);
                let from = text::string_of_range(&chars, 0, at[0]);
                let to = text::string_of_range(&chars, at[0] + 4, chars.len());
                assert(from@ =~= moving@.take(at@[0] as int));
                assert(to@ =~= moving@.skip(at@[0] + 4));
                ReflogAction::Checkout {
                    from: Some(text::trim(from.as_str())),
                    to: Some(text::trim(to.as_str())),
                }
            } else {
                ReflogAction::Checkout { from: None, to: None }
            }
        },
        None => ReflogAction::Checkout { from: None, to: Some(rest) },
    }
}

fn parse_reset(message: &str) -> (r: ReflogAction)
    ensures
        r@ == reset(message@),
{
    proof {
        reveal_strlit("moving to");
    }
    let rest = text_after(message, "reset:");
    match text::strip_prefix(rest.as_str(), "moving to") {
        Some(to) => ReflogAction::Reset { to: Some(text::trim(to.as_str())) },
        None => ReflogAction::Reset { to: Some(rest) },
    }
}

impl ReflogAction {
    /// What a message says.
    pub fn from_message(message: &str) -> (r: ReflogAction)
        ensures
            r@ == action(message@, unicode::lower_text(message@)),
            unicode::is_ascii(message@) ==> r@ == action(
                message@,
                Seq::new(message@.len(), |i: int| unicode::ascii_lower(message@[i])),
            ),
    {
        let lower = unicode::to_lower(message);
        ReflogAction::from_lowered(message, lower.as_str())
    }

    /// What a message says, given it in lower case too.
    pub fn from_lowered(message: &str, lower: &str) -> (r: ReflogAction)
        ensures
            r@ == action(message@, lower@),
    {
        if message.unicode_len() == 0 {
            ReflogAction::Unknown
        } else if text::starts_with(lower, "commit:") {
            ReflogAction::Commit
        } else if text::starts_with(lower, "checkout:") {
            parse_checkout(message)
        } else if text::starts_with(lower, "reset:") {
            parse_reset(message)
        } else if text::starts_with(lower, "rebase") {
            ReflogAction::Rebase
        } else if text::starts_with(lower, "merge:") {
            ReflogAction::Merge
        } else if text::starts_with(lower, "pull") {
            ReflogAction::Pull
        } else if text::starts_with(lower, "clone:") {
            ReflogAction::Clone
        } else if text::starts_with(lower, "branch:") {
            ReflogAction::Branch
        } else if text::starts_with(lower, "amend:") {
            ReflogAction::Amend
        } else if text::starts_with(lower, "cherry-pick:") {
            ReflogAction::CherryPick
        } else {
            ReflogAction::Unknown
        }
    }

    /// A short name.
    pub fn short_name(&self) -> (r: &'static str)
        ensures
            r@ == self@.name(),
    {
        match self {
            ReflogAction::Commit => "commit",
            ReflogAction::Checkout { .. } => "checkout",
            ReflogAction::Reset { .. } => "reset",
            ReflogAction::Rebase => "rebase",
            ReflogAction::Merge => "merge",
            ReflogAction::Pull => "pull",
            ReflogAction::Clone => "clone",
            ReflogAction::Branch => "branch",
            ReflogAction::Amend => "amend",
            ReflogAction::CherryPick => "cherry-pick",
            ReflogAction::Unknown => "other",
        }
    }

    pub open spec fn description(self) -> Option<Seq<char>> {
        match self {
            ReflogAction::Checkout { from, to } => match (from, to) {
                (Some(f), Some(t)) => Some(f@ + " -> "@ + t@),
                (Some(f), None) => Some(f@ + " -> ?"@),
                (None, Some(t)) => Some("-> "@ + t@),
                (None, None) => None,
            },
            ReflogAction::Reset { to } => text_of(to),
            _ => None,
        }
    }

    /// Where HEAD came from and went to, as far as that is known.
    pub fn change_description(&self) -> (r: Option<String>)
        ensures
            text_of(r) == self.description(),
    {
        match self {
            ReflogAction::Checkout { from, to } => match (from, to) {
                (Some(f), Some(t)) => Some(text::join3(f.as_str(), " -> ", t.as_str())),
                (Some(f), None) => Some(text::join2(f.as_str(), " -> ?")),
                (None, Some(t)) => Some(text::join2("-> ", t.as_str())),
                (None, None) => None,
            },
            ReflogAction::Reset { to } => match to {
                Some(to) => Some(to.clone()),
                None => None,
            },
            _ => None,
        }
    }
}

/// A line of the log.
#[derive(Debug)]
pub struct ReflogEntry {
    pub ref_name: String,
    /// where HEAD was, unless it was nowhere
    pub old_oid: Option<CommitId>,
    pub new_oid: CommitId,
    pub message: String,
    pub action: ReflogAction,
    /// in seconds since the epoch
    pub timestamp: i64,
    pub committer: String,
    /// the first line of the commit's message
    pub commit_subject: String,
}

/// A line of the log as it is stored. What is missing could not be read.
#[derive(Debug)]
pub struct RawEntry {
    pub old: CommitId,
    pub new: CommitId,
    pub message: Option<String>,
    pub timestamp: i64,
    pub committer: Option<String>,
    pub subject: Option<String>,
}

pub open spec fn or_empty(s: Option<String>) -> Seq<char> {
    match s {
        Some(s) => s@,
        None => Seq::empty(),
    }
}

fn unwrap_or_empty(s: Option<String>) -> (r: String)
    ensures
        r@ == or_empty(s),
{
    match s {
        Some(s) => s,
        None => {
            let r = String::new();
            assert(r@ =~= Seq::empty());
            r
        },
    }
}

/// Whether a line of the log is what a stored one says.
pub open spec fn is_entry(entry: ReflogEntry, raw: RawEntry) -> bool {
    &&& entry.ref_name@ == "HEAD"@
    &&& entry.old_oid == if raw.old.high == 0 && raw.old.low == 0 {
        None
    } else {
        Some(raw.old)
    }
    &&& entry.new_oid == raw.new
    &&& entry.message@ == or_empty(raw.message)
    &&& entry.action@ == action(entry.message@, unicode::lower_text(entry.message@))
    &&& entry.timestamp == raw.timestamp
    &&& entry.committer@ == or_empty(raw.committer)
    &&& entry.commit_subject@ == or_empty(raw.subject)
}

/// A line of the log from what is stored.
pub fn reflog_entry(raw: RawEntry) -> (r: ReflogEntry)
    ensures
        is_entry(r, raw),
{
    let message = unwrap_or_empty(raw.message);
    let action = ReflogAction::from_message(message.as_str());
    ReflogEntry {
        ref_name: "HEAD".to_owned(),
        old_oid: if raw.old.high == 0 && raw.old.low == 0 {
            None
        } else {
            Some(raw.old)
        },
        new_oid: raw.new,
        message,
        action,
        timestamp: raw.timestamp,
        committer: unwrap_or_empty(raw.committer),
        commit_subject: unwrap_or_empty(raw.subject),
    }
}

/// The log from what is stored, line by line; nothing if there is no log.
pub fn get_reflog(raw: Option<Vec<RawEntry>>) -> (r: Vec<ReflogEntry>)
    ensures
        match raw {
            Some(raw) => r@.len() == raw@.len() && forall|i: int|
                0 <= i < raw@.len() ==> is_entry(#[trigger] r@[i], raw@[i]),
            None => r@.len() == 0,
        },
{
    let mut out: Vec<ReflogEntry> = Vec::new();
    match raw {
        Some(raw) => {
            let ghost all = raw@;
            let mut raw = raw;
            let n: usize = raw.len();
            for i in 0..n
                invariant
                    n == all.len(),
                    raw@ == all.skip(i as int),
                    out@.len() == i,
                    forall|j: int| 0 <= j < i ==> is_entry(#[trigger] out@[j], all[j]),
            {
                let entry = raw.remove(0);
                assert(raw@ =~= all.skip(i + 1));
                out.push(reflog_entry(entry));
            }
            out
        },
        None => out,
    }
}

/// What git notes is told by the word that the message starts with, whatever its
/// case.
pub proof fn lemma_messages_start_with_what_happened(message: Seq<char>, rest: Seq<char>)
    requires
        message.len() > 0,
    ensures
        action(message, "commit:"@ + rest) == ReflogActionView::Commit,
        action(message, "rebase"@ + rest) == ReflogActionView::Rebase,
        action(message, "merge:"@ + rest) == ReflogActionView::Merge,
        action(message, "pull"@ + rest) == ReflogActionView::Pull,
        action(message, "clone:"@ + rest) == ReflogActionView::Clone,
        action(message, "branch:"@ + rest) == ReflogActionView::Branch,
        action(message, "amend:"@ + rest) == ReflogActionView::Amend,
        action(message, "cherry-pick:"@ + rest) == ReflogActionView::CherryPick,
        action(message, "checkout:"@ + rest) is Checkout,
        action(message, "reset:"@ + rest) is Reset,
        action(Seq::empty(), rest) == ReflogActionView::Unknown,
{
    lemma_words();
    lemma_starts("commit:"@, rest);
    lemma_starts("rebase"@, rest);
    lemma_starts("merge:"@, rest);
    lemma_starts("pull"@, rest);
    lemma_starts("clone:"@, rest);
    lemma_starts("branch:"@, rest);
    lemma_starts("amend:"@, rest);
    lemma_starts("cherry-pick:"@, rest);
    lemma_starts("checkout:"@, rest);
    lemma_starts("reset:"@, rest);
    lemma_differ("checkout:"@, rest, "commit:"@);
    lemma_differ("reset:"@, rest, "commit:"@);
    lemma_differ("reset:"@, rest, "checkout:"@);
    lemma_differ("rebase"@, rest, "commit:"@);
    lemma_differ("rebase"@, rest, "checkout:"@);
    lemma_differ("rebase"@, rest, "reset:"@);
    lemma_differ("merge:"@, rest, "commit:"@);
    lemma_differ("merge:"@, rest, "checkout:"@);
    lemma_differ("merge:"@, rest, "reset:"@);
    lemma_differ("merge:"@, rest, "rebase"@);
    lemma_differ("pull"@, rest, "commit:"@);
    lemma_differ("pull"@, rest, "checkout:"@);
    lemma_differ("pull"@, rest, "reset:"@);
    lemma_differ("pull"@, rest, "rebase"@);
    lemma_differ("pull"@, rest, "merge:"@);
    lemma_differ("clone:"@, rest, "commit:"@);
    lemma_differ("clone:"@, rest, "checkout:"@);
    lemma_differ("clone:"@, rest, "reset:"@);
    lemma_differ("clone:"@, rest, "rebase"@);
    lemma_differ("clone:"@, rest, "merge:"@);
    lemma_differ("clone:"@, rest, "pull"@);
    lemma_differ("branch:"@, rest, "commit:"@);
    lemma_differ("branch:"@, rest, "checkout:"@);
    lemma_differ("branch:"@, rest, "reset:"@);
    lemma_differ("branch:"@, rest, "rebase"@);
    lemma_differ("branch:"@, rest, "merge:"@);
    lemma_differ("branch:"@, rest, "pull"@);
    lemma_differ("branch:"@, rest, "clone:"@);
    lemma_differ("amend:"@, rest, "commit:"@);
    lemma_differ("amend:"@, rest, "checkout:"@);
    lemma_differ("amend:"@, rest, "reset:"@);
    lemma_differ("amend:"@, rest, "rebase"@);
    lemma_differ("amend:"@, rest, "merge:"@);
    lemma_differ("amend:"@, rest, "pull"@);
    lemma_differ("amend:"@, rest, "clone:"@);
    lemma_differ("amend:"@, rest, "branch:"@);
    lemma_differ("cherry-pick:"@, rest, "commit:"@);
    lemma_differ("cherry-pick:"@, rest, "checkout:"@);
    lemma_differ("cherry-pick:"@, rest, "reset:"@);
    lemma_differ("cherry-pick:"@, rest, "rebase"@);
    lemma_differ("cherry-pick:"@, rest, "merge:"@);
    lemma_differ("cherry-pick:"@, rest, "pull"@);
    lemma_differ("cherry-pick:"@, rest, "clone:"@);
    lemma_differ("cherry-pick:"@, rest, "branch:"@);
    lemma_differ("cherry-pick:"@, rest, "amend:"@);
}

proof fn lemma_words()
    ensures
        "commit:"@.len() == 7,
        "commit:"@[0] == 'c' && "commit:"@[1] == 'o' && "commit:"@[2] == 'm',
        "checkout:"@.len() == 9,
        "checkout:"@[0] == 'c' && "checkout:"@[1] == 'h' && "checkout:"@[2] == 'e'
            && "checkout:"@[3] == 'c',
        "reset:"@.len() == 6,
        "reset:"@[0] == 'r' && "reset:"@[1] == 'e' && "reset:"@[2] == 's',
        "rebase"@.len() == 6,
        "rebase"@[0] == 'r' && "rebase"@[1] == 'e' && "rebase"@[2] == 'b',
        "merge:"@.len() == 6,
        "merge:"@[0] == 'm' && "merge:"@[1] == 'e' && "merge:"@[2] == 'r',
        "pull"@.len() == 4,
        "pull"@[0] == 'p' && "pull"@[1] == 'u' && "pull"@[2] == 'l',
        "clone:"@.len() == 6,
        "clone:"@[0] == 'c' && "clone:"@[1] == 'l' && "clone:"@[2] == 'o',
        "branch:"@.len() == 7,
        "branch:"@[0] == 'b' && "branch:"@[1] == 'r' && "branch:"@[2] == 'a',
        "amend:"@.len() == 6,
        "amend:"@[0] == 'a' && "amend:"@[1] == 'm' && "amend:"@[2] == 'e',
        "cherry-pick:"@.len() == 12,
        "cherry-pick:"@[0] == 'c' && "cherry-pick:"@[1] == 'h' && "cherry-pick:"@[2] == 'e'
            && "cherry-pick:"@[3] == 'r',
{
    reveal_strlit("commit:");
    reveal_strlit("checkout:");
    reveal_strlit("reset:");
    reveal_strlit("rebase");
    reveal_strlit("merge:");
    reveal_strlit("pull");
    reveal_strlit("clone:");
    reveal_strlit("branch:");
    reveal_strlit("amend:");
    reveal_strlit("cherry-pick:");
}

proof fn lemma_starts(word: Seq<char>, rest: Seq<char>)
    ensures
        text::starts(word + rest, word),
{
    assert((word + rest).subrange(0, word.len() as int) =~= word);
}

proof fn lemma_differ(word: Seq<char>, rest: Seq<char>, other: Seq<char>)
    requires
        word.len() >= 4,
        other.len() >= 4,
        word[0] != other[0] || word[1] != other[1] || word[2] != other[2] || word[3] != other[3],
    ensures
        !text::starts(word + rest, other),
{
    let s = word + rest;
    if text::starts(s, other) {
        let p = s.subrange(0, other.len() as int);
        assert(p == other);
        assert(p[0] == word[0] && p[1] == word[1] && p[2] == word[2] && p[3] == word[3]);
    }
}

/// A checkout tells where it came from and where it went, if the message says so
/// once.
pub proof fn lemma_checkouts_tell_both_ends(from: Seq<char>, to: Seq<char>)
    requires
        text::matches_from(from + " to "@ + to, " to "@, 0) == seq![from.len() as int],
    ensures
        moved(from + " to "@ + to) == (ReflogActionView::Checkout {
            from: Some(text::trimmed(from)),
            to: Some(text::trimmed(to)),
        }),
{
    reveal_strlit(" to ");
    let rest = from + " to "@ + to;
    assert(rest.take(from.len() as int) =~= from);
    assert(rest.skip(from.len() as int + 4) =~= to);
}

/// What is told of a move names the branch that it came from first.
pub proof fn lemma_moves_are_described(from: String, to: String)
    ensures
        (ReflogAction::Checkout { from: Some(from), to: Some(to) }).description() == Some(
            from@ + " -> "@ + to@,
        ),
        (ReflogAction::Reset { to: Some(to) }).description() == Some(to@),
        ReflogAction::Commit.description() is None,
{
}

/// An entry keeps what git has noted; a first entry has nothing before it.
pub proof fn lemma_entries_keep_what_was_noted(entry: ReflogEntry, raw: RawEntry)
    requires
        is_entry(entry, raw),
    ensures
        entry.new_oid == raw.new,
        entry.timestamp == raw.timestamp,
        raw.old.high == 0 && raw.old.low == 0 ==> entry.old_oid is None,
        raw.old.high != 0 || raw.old.low != 0 ==> entry.old_oid == Some(raw.old),
        raw.message matches Some(message) ==> entry.message@ == message@,
        raw.committer matches Some(name) ==> entry.committer@ == name@,
        raw.subject matches Some(subject) ==> entry.commit_subject@ == subject@,
{
}

impl ReflogActionView {
    /// The short name of what happened.
    pub open spec fn name(self) -> Seq<char> {
        match self {
            ReflogActionView::Commit => "commit"@,
            ReflogActionView::Checkout { .. } => "checkout"@,
            ReflogActionView::Reset { .. } => "reset"@,
            ReflogActionView::Rebase => "rebase"@,
            ReflogActionView::Merge => "merge"@,
            ReflogActionView::Pull => "pull"@,
            ReflogActionView::Clone => "clone"@,
            ReflogActionView::Branch => "branch"@,
            ReflogActionView::Amend => "amend"@,
            ReflogActionView::CherryPick => "cherry-pick"@,
            ReflogActionView::Unknown => "other"@,
        }
    }
}

/// A message that starts with a name and a colon is shown under that name.
pub proof fn lemma_names_are_read_back(message: Seq<char>, rest: Seq<char>)
    requires
        message.len() > 0,
    ensures
        action(message, "commit:"@ + rest).name() == "commit"@,
        action(message, "checkout:"@ + rest).name() == "checkout"@,
        action(message, "reset:"@ + rest).name() == "reset"@,
        action(message, "rebase"@ + rest).name() == "rebase"@,
        action(message, "merge:"@ + rest).name() == "merge"@,
        action(message, "pull"@ + rest).name() == "pull"@,
        action(message, "clone:"@ + rest).name() == "clone"@,
        action(message, "branch:"@ + rest).name() == "branch"@,
        action(message, "amend:"@ + rest).name() == "amend"@,
        action(message, "cherry-pick:"@ + rest).name() == "cherry-pick"@,
        action(Seq::empty(), rest).name() == "other"@,
{
    lemma_messages_start_with_what_happened(message, rest);
}

/// A reset tells where it went, with or without the usual words before it.
pub proof fn lemma_resets_tell_where_they_went(to: Seq<char>)
    requires
        to.len() > 0,
        !text::whitespace(to[0]),
        !text::whitespace(to.last()),
    ensures
        reset("reset: moving to "@ + to) == (ReflogActionView::Reset { to: Some(to) }),
        !text::starts(to, "moving to"@) ==> reset("reset: "@ + to) == (ReflogActionView::Reset {
            to: Some(to),
        }),
{
    reveal_strlit("reset: moving to ");
    reveal_strlit("reset: ");
    reveal_strlit("reset:");
    reveal_strlit("moving to");
    reveal_strlit("moving to ");
    text::lemma_blanks();
    let blank = seq![' '];
    let none = Seq::<char>::empty();
    let long = "reset: moving to "@ + to;
    let middle = "moving to "@ + to;
    assert(long.subrange(0, 6) =~= "reset:"@);
    assert(long.skip(6) =~= blank + middle + none);
    text::lemma_blanks_around(blank, middle, none);
    assert(middle.subrange(0, 9) =~= "moving to"@);
    assert(middle.skip(9) =~= blank + to + none);
    text::lemma_blanks_around(blank, to, none);
    let short = "reset: "@ + to;
    assert(short.subrange(0, 6) =~= "reset:"@);
    assert(short.skip(6) =~= blank + to + none);
}

/// A checkout tells both ends where it names both, and else only where it went.
pub proof fn lemma_checkouts_are_read(rest: Seq<char>)
    requires
        rest.len() > 0,
        !text::whitespace(rest.last()),
    ensures
        checkout("checkout: moving from"@ + rest) == moved(rest),
        !text::whitespace(rest[0]) && !text::starts(rest, "moving from"@) ==> checkout(
            "checkout: "@ + rest,
        ) == (ReflogActionView::Checkout { from: None, to: Some(rest) }),
{
    reveal_strlit("checkout: moving from");
    reveal_strlit("checkout: ");
    reveal_strlit("checkout:");
    reveal_strlit("moving from");
    text::lemma_blanks();
    let blank = seq![' '];
    let none = Seq::<char>::empty();
    let long = "checkout: moving from"@ + rest;
    let middle = "moving from"@ + rest;
    assert(long.subrange(0, 9) =~= "checkout:"@);
    assert(long.skip(9) =~= blank + middle + none);
    text::lemma_blanks_around(blank, middle, none);
    assert(middle.subrange(0, 11) =~= "moving from"@);
    assert(middle.skip(11) =~= rest);
    if !text::whitespace(rest[0]) {
        let short = "checkout: "@ + rest;
        assert(short.subrange(0, 9) =~= "checkout:"@);
        assert(short.skip(9) =~= blank + rest + none);
        text::lemma_blanks_around(blank, rest, none);
    }
}

} // verus!
