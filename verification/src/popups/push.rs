//! The popup that shows a push.
use crate::asyncgit::remote_progress::{RemoteProgress, RemoteProgressState};
use crate::asyncgit::sync::remotes::push::PushType;
use crate::components::{
    visibility_blocking, Command, CommandBlocking, CommandInfo, EventState, Key, KeyPress,
};
use crate::text;
use vstd::prelude::*;
use vstd::string::*;

verus! {

/// How a push treats the remote branch.
#[derive(Clone, Copy, Debug, PartialEq, Eq, Structural)]
pub enum PushComponentModifier {
    Plain,
    Force,
    Delete,
    ForceDelete,
}

impl PushComponentModifier {
    pub open spec fn of(force: bool, delete: bool) -> PushComponentModifier {
        if force && delete {
            PushComponentModifier::ForceDelete
        } else if force {
            PushComponentModifier::Force
        } else if delete {
            PushComponentModifier::Delete
        } else {
            PushComponentModifier::Plain
        }
    }

    pub open spec fn forces(self) -> bool {
        self == PushComponentModifier::Force || self == PushComponentModifier::ForceDelete
    }

    pub open spec fn deletes(self) -> bool {
        self == PushComponentModifier::Delete || self == PushComponentModifier::ForceDelete
    }

    /// Whether it is overwritten.
    pub fn force(&self) -> (r: bool)
        ensures
            r == self.forces(),
    {
        *self == PushComponentModifier::Force || *self == PushComponentModifier::ForceDelete
    }

    /// Whether it is deleted.
    pub fn delete(&self) -> (r: bool)
        ensures
            r == self.deletes(),
    {
        *self == PushComponentModifier::Delete || *self == PushComponentModifier::ForceDelete
    }
}

/// How far a push is, and what was sent so far.
#[derive(Clone, Copy, Debug, PartialEq, Eq, Structural)]
pub struct PushProgress {
    pub remote: RemoteProgress,
    pub current: usize,
    pub total: usize,
    pub bytes: Option<u64>,
}

/// What follows the start of a push.
#[derive(Clone, Copy, Debug, PartialEq, Eq, Structural)]
pub enum PushStart {
    /// push with the credential that is stored
    WithCredential,
    /// push without one
    Plain,
    /// ask the user for one
    AskCredential,
}

/// A push to be done.
#[derive(Debug, PartialEq, Eq)]
pub struct PushRequest {
    pub remote: String,
    pub branch: String,
    pub push_type: PushType,
    pub force: bool,
    pub delete: bool,
}

/// What follows the hook that runs before a push.
#[derive(Debug, PartialEq, Eq)]
pub enum PushStep {
    Request(PushRequest),
    ShowError(String),
}

/// What a key press leads to.
#[derive(Clone, Copy, Debug, PartialEq, Eq, Structural)]
pub enum PushEvent {
    Nothing,
    /// push with the credential that the user gave, as far as there is one
    PushWithInput,
}

/// The popup that shows a push.
#[derive(Debug)]
pub struct PushPopup {
    pub modifier: PushComponentModifier,
    pub visible: bool,
    pub progress: Option<PushProgress>,
    pub pending: bool,
    pub branch: String,
    pub push_type: PushType,
    /// whether the push has been handed over
    pub started: bool,
}

// ---------------------------------------------------------------- formatting

/// Digits in groups of three from the right.
pub open spec fn grouped(digits: Seq<char>) -> Seq<char>
    decreases digits.len(),
{
    let n = digits.len() as int;
    if n <= 3 {
        digits
    } else {
        grouped(digits.take(n - 3)) + seq![','] + digits.skip(n - 3)
    }
}

/// A number in groups of three digits.
pub fn group_digits(n: usize) -> (r: String)
    ensures
        r@ == grouped(text::digits(n as nat)),
{
    let digits = text::number(n as u64);
    let chars = text::chars_of(digits.as_str());
    let ghost all = chars@;
    let len: usize = chars.len();
    let mut at: usize = len % 3;
    if at == 0 && len > 0 {
        at = 3;
    }
    let mut out = text::string_of_range(&chars, 0, at);
    assert(out@ =~= all.take(at as int));
    while at < len
        invariant
            len == all.len(),
            all == chars@,
            at <= len,
            (len - at) % 3 == 0,
            out@ == grouped(all.take(at as int)),
            at > 0,
        decreases len - at,
    {
        let group = text::string_of_range(&chars, at, at + 3);
        proof {
            let next = all.take(at + 3);
            assert(next.take(at as int) =~= all.take(at as int));
            assert(next.skip(at as int) =~= all.subrange(at as int, at + 3));
        }
        out.push(',');
        out.append(group.as_str());
        assert(out@ =~= grouped(all.take(at + 3)));
        at += 3;
    }
    assert(all.take(len as int) =~= all);
    out
}

/// Ten times a number, as far as it fits.
pub open spec fn tenfold(bytes: u64) -> int {
    if 10 * bytes > u64::MAX {
        u64::MAX as int
    } else {
        10 * bytes
    }
}

/// A number of bytes in units of a size, with one digit behind the point, which
/// is cut off there.
pub open spec fn in_units(bytes: u64, size: int, unit: Seq<char>) -> Seq<char> {
    let tenths = tenfold(bytes) / size;
    text::digits((tenths / 10) as nat) + "."@ + text::digits((tenths % 10) as nat) + " "@ + unit
}

/// A number of bytes in the largest unit that it reaches.
pub open spec fn byte_text(bytes: u64) -> Seq<char> {
    if bytes >= 1073741824 {
        in_units(bytes, 1073741824, "GB"@)
    } else if bytes >= 1048576 {
        in_units(bytes, 1048576, "MB"@)
    } else if bytes >= 1024 {
        in_units(bytes, 1024, "KB"@)
    } else {
        text::digits(bytes as nat) + " B"@
    }
}

fn format_units(bytes: u64, size: u64, unit: &str) -> (r: String)
    requires
        size > 0,
    ensures
        r@ == in_units(bytes, size as int, unit@),
{
    let scaled: u64 = if bytes > u64::MAX / 10 {
        u64::MAX
    } else {
        bytes * 10
    };
    let tenths: u64 = scaled / size;
    let mut out = text::number(tenths / 10);
    out.append(".");
    let rest = text::number(tenths % 10);
    out.append(rest.as_str());
    out.append(" ");
    out.append(unit);
    out
}

/// A number of bytes in the largest unit that it reaches.
pub fn format_bytes(bytes: u64) -> (r: String)
    ensures
        r@ == byte_text(bytes),
{
    if bytes >= 1073741824 {
        format_units(bytes, 1073741824, "GB")
    } else if bytes >= 1048576 {
        format_units(bytes, 1048576, "MB")
    } else if bytes >= 1024 {
        format_units(bytes, 1024, "KB")
    } else {
        let count = text::number(bytes);
        text::join2(count.as_str(), " B")
    }
}

// --------------------------------------------------------------------- popup

/// The remote to push to: that of the branch, or else the usual one. Where that
/// is needed and unknown, there is an error.
pub fn push_remote(branch_remote: Option<String>, usual: Result<String, String>) -> (r: Result<
    String,
    String,
>)
    ensures
        r == match branch_remote {
            Some(remote) => Ok::<String, String>(remote),
            None => usual,
        },
{
    match branch_remote {
        Some(remote) => Ok(remote),
        None => usual,
    }
}

/// What follows once it is known whether the remote asks for a name and a password,
/// and whether both are stored.
pub open spec fn push_start(need: Result<bool, String>, complete: bool) -> Result<
    PushStart,
    String,
> {
    match need {
        Ok(need) => Ok(
            if !need {
                PushStart::Plain
            } else if complete {
                PushStart::WithCredential
            } else {
                PushStart::AskCredential
            },
        ),
        Err(e) => Err(e),
    }
}

/// How long a push has taken, if that is known, such as ` · 1.5s`.
pub open spec fn suffix(elapsed: Option<Seq<char>>) -> Seq<char> {
    match elapsed {
        Some(seconds) => " · "@ + seconds + "s"@,
        None => Seq::empty(),
    }
}

pub open spec fn opt_text(s: Option<&str>) -> Option<Seq<char>> {
    match s {
        Some(s) => Some(s@),
        None => None,
    }
}

fn elapsed_suffix(elapsed: Option<&str>) -> (r: String)
    ensures
        r@ == suffix(opt_text(elapsed)),
{
    match elapsed {
        Some(seconds) => text::join3(" · ", seconds, "s"),
        None => {
            let r = String::new();
            assert(r@ =~= Seq::empty());
            r
        },
    }
}

impl PushPopup {
    /// A popup that is not open.
    pub fn new() -> (r: PushPopup)
        ensures
            r.modifier == PushComponentModifier::Plain,
            !r.visible,
            r.progress is None,
            !r.pending,
            r.branch@.len() == 0,
            r.push_type == PushType::Branch,
            !r.started,
    {
        PushPopup {
            modifier: PushComponentModifier::Plain,
            visible: false,
            progress: None,
            pending: false,
            branch: String::new(),
            push_type: PushType::Branch,
            started: false,
        }
    }

    /// Open the popup for a push. `need` tells whether the remote asks for a name
    /// and a password, or why that could not be told, and `complete` whether both
    /// are stored.
    pub fn push(
        &mut self,
        branch: String,
        push_type: PushType,
        force: bool,
        delete: bool,
        need: Result<bool, String>,
        complete: bool,
    ) -> (r: Result<PushStart, String>)
        ensures
            *final(self) == (PushPopup {
                branch,
                push_type,
                modifier: PushComponentModifier::of(force, delete),
                visible: true,
                started: false,
                ..*old(self)
            }),
            r == push_start(need, complete),
    {
        self.branch = branch;
        self.push_type = push_type;
        self.modifier = if force && delete {
            PushComponentModifier::ForceDelete
        } else if force {
            PushComponentModifier::Force
        } else if delete {
            PushComponentModifier::Delete
        } else {
            PushComponentModifier::Plain
        };
        self.visible = true;
        self.started = false;
        match need {
            Ok(need) => Ok(
                if !need {
                    PushStart::Plain
                } else if complete {
                    PushStart::WithCredential
                } else {
                    PushStart::AskCredential
                },
            ),
            Err(e) => Err(e),
        }
    }

    /// Whether a push to a remote goes its way: what the hook rejects ends, all
    /// else is asked for.
    pub open spec fn pushes(
        self,
        remote: String,
        force: bool,
        hook: Option<String>,
        after: PushPopup,
        step: PushStep,
    ) -> bool {
        match hook {
            Some(e) => {
                &&& after == (PushPopup { pending: false, visible: false, ..self })
                &&& step matches PushStep::ShowError(msg) && msg@ == "pre-push hook failed:\n"@
                    + e@
            },
            None => {
                &&& after == (PushPopup {
                    pending: true,
                    progress: None,
                    started: true,
                    ..self
                })
                &&& step matches PushStep::Request(request)
                &&& request.remote == remote
                &&& request.branch@ == self.branch@
                &&& request.push_type == self.push_type
                &&& request.force == force
                &&& request.delete == self.modifier.deletes()
            },
        }
    }

    /// The popup after a notification.
    pub open spec fn updated(
        self,
        is_push: bool,
        pending: bool,
        progress: Option<PushProgress>,
    ) -> PushPopup {
        if !(self.visible && is_push) {
            self
        } else if pending {
            PushPopup { pending, progress, ..self }
        } else {
            PushPopup { pending, progress, started: false, visible: false, ..self }
        }
    }

    /// What the user is told after a notification.
    pub open spec fn told(self, is_push: bool, pending: bool, error: Option<String>) -> Option<
        Seq<char>,
    > {
        match error {
            Some(e) => if self.visible && is_push && !pending {
                Some("push failed:\n"@ + e@)
            } else {
                None
            },
            None => None,
        }
    }

    /// Push to a remote, unless the hook that runs before it rejects that. `hook`
    /// is what the hook says in that case.
    pub fn push_to_remote(&mut self, remote: String, force: bool, hook: Option<String>) -> (r:
        PushStep)
        ensures
            old(self).pushes(remote, force, hook, *final(self), r),
    {
        match hook {
            Some(e) => {
                self.pending = false;
                self.visible = false;
                PushStep::ShowError(text::join2("pre-push hook failed:\n", e.as_str()))
            },
            None => {
                self.pending = true;
                self.progress = None;
                self.started = true;
                PushStep::Request(
                    PushRequest {
                        remote,
                        branch: self.branch.clone(),
                        push_type: self.push_type,
                        force,
                        delete: self.modifier.delete(),
                    },
                )
            },
        }
    }

    /// Take in how far the push is, after a notification of one. `error` is why it
    /// failed, if it did. Tells what to show to the user.
    pub fn update_git(
        &mut self,
        is_push: bool,
        pending: bool,
        progress: Option<PushProgress>,
        error: Option<String>,
    ) -> (r: Option<String>)
        ensures
            *final(self) == old(self).updated(is_push, pending, progress),
            match r {
                Some(msg) => old(self).told(is_push, pending, error) == Some(msg@),
                None => old(self).told(is_push, pending, error) is None,
            },
    {
        if !(self.visible && is_push) {
            return None;
        }
        self.pending = pending;
        self.progress = progress;
        if pending {
            return None;
        }
        self.started = false;
        self.visible = false;
        match error {
            Some(e) => Some(text::join2("push failed:\n", e.as_str())),
            None => None,
        }
    }

    pub fn any_work_pending(&self) -> (r: bool)
        ensures
            r == self.pending,
    {
        self.pending
    }

    /// Whether a push runs and is shown.
    pub fn is_active(&self) -> (r: bool)
        ensures
            r == (self.visible && self.pending),
    {
        self.visible && self.pending
    }

    /// What a push is at, unless it is still being prepared, and how far that is.
    pub fn get_progress(progress: Option<&RemoteProgress>) -> (r: (
        Option<RemoteProgressState>,
        u8,
    ))
        ensures
            r == match progress {
                Some(p) => (Some(p.state), p.progress.progress),
                None => (None, 0u8),
            },
    {
        match progress {
            Some(p) => (Some(p.state), p.get_progress_percent()),
            None => (None, 0),
        }
    }

    pub open spec fn gauge(self) -> (Option<RemoteProgressState>, u16) {
        match self.progress {
            Some(p) => (
                Some(p.remote.state),
                if p.total == 0 && p.remote.state == RemoteProgressState::PackingAddingObject {
                    0u16
                } else {
                    p.remote.progress.progress as u16
                },
            ),
            None => (None, 0u16),
        }
    }

    /// What the gauge shows. While objects are counted, there is no total yet.
    pub fn gauge_content(&self) -> (r: (Option<RemoteProgressState>, u16))
        ensures
            r == self.gauge(),
    {
        match &self.progress {
            Some(p) => {
                let percent: u8 = if p.total == 0 && p.remote.state
                    == RemoteProgressState::PackingAddingObject {
                    0
                } else {
                    p.remote.get_progress_percent()
                };
                (Some(p.remote.state), percent as u16)
            },
            None => (None, 0),
        }
    }

    pub open spec fn counts(p: PushProgress) -> Seq<char> {
        if p.total > 0 {
            grouped(text::digits(p.current as nat)) + "/"@ + grouped(text::digits(p.total as nat))
                + " objects"@
        } else {
            grouped(text::digits(p.current as nat)) + " objects"@
        }
    }

    /// The line below the gauge.
    pub open spec fn detail(self, elapsed: Option<Seq<char>>) -> Seq<char> {
        match self.progress {
            None => if self.started {
                "connecting"@ + suffix(elapsed)
            } else {
                Seq::empty()
            },
            Some(p) => if p.remote.state == RemoteProgressState::Done {
                "done"@ + suffix(elapsed)
            } else {
                PushPopup::counts(p) + match p.bytes {
                    Some(bytes) => " · "@ + byte_text(bytes),
                    None => Seq::empty(),
                } + suffix(elapsed)
            },
        }
    }

    /// The line below the gauge. `elapsed` is how many seconds the push has taken
    /// since it was handed over.
    pub fn detail_line(&self, elapsed: Option<&str>) -> (r: String)
        ensures
            r@ == self.detail(opt_text(elapsed)),
    {
        let end = elapsed_suffix(elapsed);
        match &self.progress {
            None => if self.started {
                text::join2("connecting", end.as_str())
            } else {
                let r = String::new();
                assert(r@ =~= Seq::empty());
                r
            },
            Some(p) => {
                if p.remote.state == RemoteProgressState::Done {
                    return text::join2("done", end.as_str());
                }
                let mut out = group_digits(p.current);
                if p.total > 0 {
                    out.append("/");
                    let total = group_digits(p.total);
                    out.append(total.as_str());
                }
                out.append(" objects");
                assert(out@ == PushPopup::counts(*p));
                match p.bytes {
                    Some(bytes) => {
                        let size = format_bytes(bytes);
                        let ghost had = out@;
                        out.append(" · ");
                        out.append(size.as_str());
                        assert(out@ =~= had + (" · "@ + byte_text(bytes)));
                    },
                    None => {
                        assert(out@ + Seq::<char>::empty() =~= out@);
                    },
                }
                out.append(end.as_str());
                out
            },
        }
    }

    /// Add the commands that the popup offers, in place of those below it. An
    /// input for credentials offers its own.
    pub fn commands(&self, out: &mut Vec<CommandInfo>, force_all: bool, input: bool) -> (r: Option<
        CommandBlocking,
    >)
        ensures
            ({
                let shown = self.visible || force_all;
                let kept = if self.visible && !force_all {
                    Seq::empty()
                } else {
                    old(out)@
                };
                &&& final(out)@ == if shown && !input {
                    kept.push(CommandInfo::of(Command::CloseMsg, !self.pending, self.visible))
                } else {
                    kept
                }
                &&& r == if shown && input {
                    None
                } else if self.visible {
                    Some(CommandBlocking::Blocking)
                } else {
                    Some(CommandBlocking::PassingOn)
                }
            }),
    {
        if self.visible || force_all {
            if !force_all {
                out.clear();
            }
            if input {
                return None;
            }
            out.push(CommandInfo::new(Command::CloseMsg, !self.pending, self.visible));
        }
        Some(visibility_blocking(self.visible))
    }

    /// The popup after an event: a key closes it, but not while a push runs or the
    /// user is asked for something.
    pub open spec fn keyed(self, press: Option<KeyPress>, input: bool) -> PushPopup {
        PushPopup {
            visible: self.visible && !(!input && !self.pending && press is Some && press->0.has(
                Key::ExitPopup,
            )),
            ..self
        }
    }

    /// React to an event. `press` is the key, if it is one; `input` tells whether
    /// the input for credentials was shown before it, and `done` whether that has
    /// all it asks for now, or was closed.
    pub fn event(&mut self, press: Option<&KeyPress>, input: bool, done: bool) -> (r: (
        EventState,
        PushEvent,
    ))
        ensures
            r.0 == EventState::of(old(self).visible),
            *final(self) == old(self).keyed(
                match press {
                    Some(press) => Some(*press),
                    None => None,
                },
                input,
            ),
            r.1 == if old(self).visible && press is Some && input && done {
                PushEvent::PushWithInput
            } else {
                PushEvent::Nothing
            },
    {
        if !self.visible {
            return (EventState::NotConsumed, PushEvent::Nothing);
        }
        match press {
            Some(press) => {
                if input {
                    if done {
                        return (EventState::Consumed, PushEvent::PushWithInput);
                    }
                } else if press.is(Key::ExitPopup) && !self.pending {
                    self.visible = false;
                }
            },
            None => {},
        }
        (EventState::Consumed, PushEvent::Nothing)
    }
}

// ----------------------------------------------------------------------- laws

/// A text without its commas.
pub open spec fn without_commas(s: Seq<char>) -> Seq<char>
    decreases s.len(),
{
    if s.len() == 0 {
        Seq::empty()
    } else if s.last() == ',' {
        without_commas(s.drop_last())
    } else {
        without_commas(s.drop_last()).push(s.last())
    }
}

proof fn lemma_without_commas_add(a: Seq<char>, b: Seq<char>)
    ensures
        without_commas(a + b) == without_commas(a) + without_commas(b),
    decreases b.len(),
{
    if b.len() == 0 {
        assert(a + b =~= a);
        assert(without_commas(a) + without_commas(b) =~= without_commas(a));
    } else {
        assert((a + b).drop_last() =~= a + b.drop_last());
        lemma_without_commas_add(a, b.drop_last());
        assert(without_commas(a + b) =~= without_commas(a) + without_commas(b));
    }
}

proof fn lemma_no_commas(s: Seq<char>)
    requires
        forall|i: int| 0 <= i < s.len() ==> s[i] != ',',
    ensures
        without_commas(s) == s,
    decreases s.len(),
{
    if s.len() > 0 {
        lemma_no_commas(s.drop_last());
        assert(s =~= s.drop_last().push(s.last()));
    }
}

/// Grouping only adds commas.
pub proof fn lemma_grouping_keeps_the_digits(digits: Seq<char>)
    requires
        forall|i: int| 0 <= i < digits.len() ==> digits[i] != ',',
    ensures
        without_commas(grouped(digits)) == digits,
    decreases digits.len(),
{
    let n = digits.len() as int;
    if n <= 3 {
        lemma_no_commas(digits);
    } else {
        let first = digits.take(n - 3);
        let last = digits.skip(n - 3);
        assert forall|i: int| 0 <= i < first.len() implies first[i] != ',' by {
            assert(first[i] == digits[i]);
        }
        assert forall|i: int| 0 <= i < last.len() implies last[i] != ',' by {
            assert(last[i] == digits[n - 3 + i]);
        }
        lemma_grouping_keeps_the_digits(first);
        lemma_no_commas(last);
        lemma_without_commas_add(grouped(first) + seq![','], last);
        lemma_without_commas_add(grouped(first), seq![',']);
        assert(without_commas(seq![',']) =~= Seq::empty()) by {
            assert(seq![','].drop_last() =~= Seq::<char>::empty());
            assert(without_commas(Seq::<char>::empty()) =~= Seq::<char>::empty());
        }
        assert(without_commas(grouped(digits)) =~= first + last);
        assert(first + last =~= digits);
    }
}

/// What the popup was opened with is what it pushes with.
pub proof fn lemma_modifiers_are_kept(force: bool, delete: bool)
    ensures
        PushComponentModifier::of(force, delete).forces() == force,
        PushComponentModifier::of(force, delete).deletes() == delete,
{
}

/// A comma stands before every third digit from the right, and nowhere else.
pub proof fn lemma_commas_stand_at_every_third_digit(digits: Seq<char>, i: int)
    requires
        forall|k: int| 0 <= k < digits.len() ==> digits[k] != ',',
        0 <= i < grouped(digits).len(),
    ensures
        grouped(digits)[i] == ',' <==> (grouped(digits).len() - i) % 4 == 0,
        grouped(digits).len() > 0 ==> grouped(digits)[0] != ',',
    decreases digits.len(),
{
    let n = digits.len() as int;
    if n > 3 {
        let head = digits.take(n - 3);
        lemma_commas_stand_at_every_third_digit(
            head,
            if i < grouped(head).len() {
                i
            } else {
                0
            },
        );
        let all = grouped(digits);
        let m = grouped(head).len() as int;
        assert(all.len() == m + 4);
        if i < m {
            assert(all[i] == grouped(head)[i]);
        } else if i > m {
            assert(all[i] == digits[n - 3 + (i - m - 1)]);
        }
        assert(m > 0) by {
            lemma_grouping_keeps_something(head);
        }
        assert(all[0] == grouped(head)[0]);
    }
}

proof fn lemma_grouping_keeps_something(digits: Seq<char>)
    ensures
        digits.len() > 0 <==> grouped(digits).len() > 0,
        grouped(digits).len() >= digits.len(),
    decreases digits.len(),
{
    if digits.len() > 3 {
        lemma_grouping_keeps_something(digits.take(digits.len() - 3));
    }
}

/// An amount is told in the greatest unit of which it holds at least one, to
/// a tenth, cut off.
pub proof fn lemma_amounts_are_told(bytes: u64)
    requires
        10 * bytes <= u64::MAX,
    ensures
        bytes < 1024 ==> byte_text(bytes) == text::digits(bytes as nat) + " B"@,
        1024 <= bytes < 1048576 ==> told_in(bytes, 1024, "KB"@),
        1048576 <= bytes < 1073741824 ==> told_in(bytes, 1048576, "MB"@),
        1073741824 <= bytes ==> told_in(bytes, 1073741824, "GB"@),
{
    if bytes >= 1024 {
        let size: int = if bytes >= 1073741824 {
            1073741824
        } else if bytes >= 1048576 {
            1048576
        } else {
            1024
        };
        let tenths = 10 * bytes / size;
        assert(tenths * size <= 10 * bytes < (tenths + 1) * size) by (nonlinear_arith)
            requires
                tenths == 10 * bytes / size,
                size > 0,
                bytes >= 0,
        ;
        let unit = if bytes >= 1073741824 {
            "GB"@
        } else if bytes >= 1048576 {
            "MB"@
        } else {
            "KB"@
        };
        let whole = (tenths / 10) as nat;
        let tenth = (tenths % 10) as nat;
        assert(tenths == 10 * whole + tenth);
        assert(told_as(bytes, size, unit, whole, tenth));
    }
}

/// Whether an amount is told by a whole number of units and a tenth.
pub open spec fn told_as(bytes: u64, size: int, unit: Seq<char>, whole: nat, tenth: nat) -> bool {
    &&& tenth < 10
    &&& (10 * whole + tenth) * size <= 10 * bytes < (10 * whole + tenth + 1) * size
    &&& byte_text(bytes) == text::digits(whole) + "."@ + text::digits(tenth) + " "@ + unit
}

/// Whether an amount is told in a unit.
pub open spec fn told_in(bytes: u64, size: int, unit: Seq<char>) -> bool {
    exists|whole: nat, tenth: nat| told_as(bytes, size, unit, whole, tenth)
}

/// The counts tell how much is there and, where that is known, of how much.
pub proof fn lemma_counts_tell_both_numbers(p: PushProgress)
    ensures
        p.total > 0 ==> PushPopup::counts(p) == grouped(text::digits(p.current as nat)) + "/"@
            + grouped(text::digits(p.total as nat)) + " objects"@,
        p.total == 0 ==> PushPopup::counts(p) == grouped(text::digits(p.current as nat))
            + " objects"@,
{
}

/// What is told below the bar: that the remote is called, how much was sent,
/// or that it is done; and how long it took, at the end.
pub proof fn lemma_what_is_told_of_a_push(popup: PushPopup, seconds: Seq<char>)
    ensures
        ({
            let told = popup.detail(None);
            &&& popup.detail(Some(seconds)) == if popup.progress is None && !popup.started {
                told
            } else {
                told + (" · "@ + seconds + "s"@)
            }
            &&& popup.progress is None && popup.started ==> told == "connecting"@
            &&& popup.progress is None && !popup.started ==> told.len() == 0
            &&& popup.progress is Some && popup.progress->0.remote.state
                == RemoteProgressState::Done ==> told == "done"@
            &&& popup.progress is Some && popup.progress->0.remote.state
                != RemoteProgressState::Done && popup.progress->0.bytes is None ==> told
                == PushPopup::counts(popup.progress->0)
            &&& popup.progress is Some && popup.progress->0.remote.state
                != RemoteProgressState::Done && popup.progress->0.bytes is Some ==> told
                == PushPopup::counts(popup.progress->0) + (" · "@ + byte_text(
                popup.progress->0.bytes->0,
            ))
        }),
{
    let told = popup.detail(None);
    let after = popup.detail(Some(seconds));
    assert("connecting"@ + Seq::<char>::empty() =~= "connecting"@);
    assert("done"@ + Seq::<char>::empty() =~= "done"@);
    if popup.progress is Some {
        let p = popup.progress->0;
        let counts = PushPopup::counts(p);
        assert(counts + Seq::<char>::empty() =~= counts);
        if p.bytes is Some {
            let more = counts + (" · "@ + byte_text(p.bytes->0));
            assert(more + Seq::<char>::empty() =~= more);
        }
    }
}

/// The user is asked for a name and a password exactly where the remote wants them
/// and they are not stored.
pub proof fn lemma_when_credentials_are_asked_for(need: Result<bool, String>, complete: bool)
    ensures
        push_start(need, complete) is Err <==> need is Err,
        need is Err ==> push_start(need, complete)->Err_0 == need->Err_0,
        push_start(need, complete) == Ok::<PushStart, String>(PushStart::Plain) <==> need
            == Ok::<bool, String>(false),
        push_start(need, complete) == Ok::<PushStart, String>(PushStart::AskCredential) <==> need
            == Ok::<bool, String>(true) && !complete,
        push_start(need, complete) == Ok::<PushStart, String>(PushStart::WithCredential) <==> need
            == Ok::<bool, String>(true) && complete,
{
}

/// What is pushed is what the popup was opened for, to the remote that was given;
/// it deletes or forces only where that was asked for. A hook that fails stops it.
pub proof fn lemma_what_is_pushed(
    popup: PushPopup,
    remote: String,
    force: bool,
    hook: Option<String>,
    after: PushPopup,
    step: PushStep,
)
    requires
        popup.pushes(remote, force, hook, after, step),
    ensures
        step is Request <==> hook is None,
        after.pending <==> hook is None,
        hook is None ==> {
            let request = step->Request_0;
            &&& request.branch@ == popup.branch@
            &&& request.push_type == popup.push_type
            &&& request.remote == remote
            &&& request.force == force
            &&& request.delete <==> popup.modifier == PushComponentModifier::Delete
                || popup.modifier == PushComponentModifier::ForceDelete
            &&& after.progress is None
            &&& after.started
            &&& after.visible == popup.visible
        },
        hook is Some ==> !after.visible,
        after.branch == popup.branch,
        after.modifier == popup.modifier,
{
}

/// The popup stays open while a push runs and closes when it ends; then, and only
/// then, a failure is told. What is not about a visible push changes nothing.
pub proof fn lemma_pushes_end(
    popup: PushPopup,
    pending: bool,
    progress: Option<PushProgress>,
    error: Option<String>,
)
    ensures
        popup.updated(false, pending, progress) == popup,
        popup.told(false, pending, error) is None,
        !popup.visible ==> popup.updated(true, pending, progress) == popup && popup.told(
            true,
            pending,
            error,
        ) is None,
        popup.visible ==> {
            let after = popup.updated(true, pending, progress);
            &&& after.visible == pending
            &&& after.pending == pending
            &&& after.progress == progress
            &&& after.branch == popup.branch
            &&& !pending ==> !after.started
            &&& pending ==> after.started == popup.started
            &&& popup.told(true, pending, error) is Some <==> !pending && error is Some
            &&& !pending && error is Some ==> popup.told(true, pending, error)->0
                == "push failed:\n"@ + error->0@
        },
{
}

/// The gauge stands at the share that is told, but at nothing while objects are
/// counted.
pub proof fn lemma_the_gauge_follows_the_push(popup: PushPopup)
    ensures
        popup.progress is None ==> popup.gauge() == (None::<RemoteProgressState>, 0u16),
        popup.progress is Some ==> {
            let p = popup.progress->0;
            &&& popup.gauge().0 == Some(p.remote.state)
            &&& p.total > 0 ==> popup.gauge().1 == p.remote.progress.progress
            &&& p.remote.state != RemoteProgressState::PackingAddingObject ==> popup.gauge().1
                == p.remote.progress.progress
            &&& p.total == 0 && p.remote.state == RemoteProgressState::PackingAddingObject
                ==> popup.gauge().1 == 0
        },
{
}

/// The popup closes by its key alone, and not while a push runs or the user is
/// asked for something.
pub proof fn lemma_when_the_popup_closes(popup: PushPopup, press: KeyPress, input: bool)
    ensures
        popup.visible && !popup.keyed(Some(press), input).visible <==> popup.visible && !input
            && !popup.pending && press.has(Key::ExitPopup),
        popup.keyed(None, input) == popup,
        popup.pending ==> popup.keyed(Some(press), input) == popup,
        !popup.visible ==> popup.keyed(Some(press), input) == popup,
        popup.keyed(Some(press), input).branch == popup.branch,
        popup.keyed(Some(press), input).modifier == popup.modifier,
        popup.keyed(Some(press), input).pending == popup.pending,
{
}

} // verus!
