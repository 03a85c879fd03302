//! What a push sends, and when it is refused.
use crate::asyncgit::progress::{self, ProgressPercent};
use crate::asyncgit::sync::CommitId;
use crate::text;
use vstd::prelude::*;
use vstd::string::*;

verus! {

/// Progress of a remote operation.
pub trait AsyncProgress {
    spec fn finished(&self) -> bool;

    spec fn share(&self) -> int;

    /// Whether the operation is done.
    fn is_done(&self) -> (r: bool)
        ensures
            r == self.finished(),
    ;

    /// How far it is.
    fn progress(&self) -> (r: ProgressPercent)
        ensures
            r.progress == self.share(),
    ;
}

/// What is fetched of a remote.
#[derive(Clone, Copy, Debug, PartialEq, Eq, Structural)]
pub enum FetchPhase {
    Branches,
    Tags,
    Done,
}

/// What is done while objects are packed.
#[derive(Clone, Copy, Debug, PartialEq, Eq, Structural)]
pub enum PackBuilderStage {
    AddingObjects,
    Deltafication,
}

/// What a remote operation reports.
#[derive(Debug, PartialEq, Eq)]
pub enum ProgressNotification {
    /// another part of a fetch from all remotes
    FetchPhase { remote: String, current: usize, total: usize, phase: FetchPhase },
    /// a reference moved
    UpdateTips { name: String, a: CommitId, b: CommitId },
    Transfer { objects: usize, total_objects: usize, indexed_objects: usize },
    PushTransfer { current: usize, total: usize, bytes: usize },
    Packing { stage: PackBuilderStage, total: usize, current: usize },
    Done,
}

impl AsyncProgress for ProgressNotification {
    open spec fn finished(&self) -> bool {
        self is Done
    }

    open spec fn share(&self) -> int {
        match self {
            ProgressNotification::Packing { current, total, .. } => progress::percent(
                *current as int,
                *total as int,
            ),
            ProgressNotification::PushTransfer { current, total, .. } => progress::percent(
                *current as int,
                *total as int,
            ),
            ProgressNotification::Transfer { objects, total_objects, .. } => progress::percent(
                *objects as int,
                *total_objects as int,
            ),
            _ => 100,
        }
    }

    fn is_done(&self) -> (r: bool) {
        match self {
            ProgressNotification::Done => true,
            _ => false,
        }
    }

    fn progress(&self) -> (r: ProgressPercent) {
        match self {
            ProgressNotification::Packing { current, total, .. } => ProgressPercent::new(
                *current,
                *total,
            ),
            ProgressNotification::PushTransfer { current, total, .. } => ProgressPercent::new(
                *current,
                *total,
            ),
            ProgressNotification::Transfer { objects, total_objects, .. } => ProgressPercent::new(
                *objects,
                *total_objects,
            ),
            _ => ProgressPercent::full(),
        }
    }
}

/// What is pushed.
#[derive(Clone, Copy, Debug, PartialEq, Eq, Structural)]
pub enum PushType {
    Branch,
    Tag,
}

impl Default for PushType {
    fn default() -> (r: PushType)
        ensures
            r == PushType::Branch,
    {
        PushType::Branch
    }
}

// ------------------------------------------------------------------- plan

/// How a push is done.
#[derive(Debug, PartialEq, Eq)]
pub struct PushPlan {
    pub push_ref: String,
    /// the reference whose state has to be what was fetched last, if the push
    /// must not overwrite anything else
    pub lease: Option<String>,
    /// whether the branch follows the remote one afterwards
    pub set_upstream: bool,
}

/// What a push sends: the local reference, behind a plus if the push is forced
/// and behind a colon if the remote one is deleted, and the remote reference if
/// it has another name.
pub open spec fn push_reference(
    branch: Seq<char>,
    ref_type: PushType,
    force: bool,
    delete: bool,
    upstream: Option<Seq<char>>,
) -> Seq<char> {
    (if force {
        "+"@
    } else {
        ""@
    }) + (if delete {
        ":"@
    } else {
        ""@
    }) + "refs/"@ + (match ref_type {
        PushType::Branch => "heads"@,
        PushType::Tag => "tags"@,
    }) + "/"@ + branch + match upstream {
        Some(name) => if !delete && ref_type == PushType::Branch {
            ":"@ + name
        } else {
            Seq::empty()
        },
        None => Seq::empty(),
    }
}

/// What stands behind the first colon, if there is one.
pub open spec fn after_colon(s: Seq<char>, i: int) -> Option<Seq<char>>
    decreases s.len() - i,
{
    if i < 0 || i >= s.len() {
        None
    } else if s[i] == ':' {
        Some(s.skip(i + 1))
    } else {
        after_colon(s, i + 1)
    }
}

fn find_after_colon(s: &str) -> (r: Option<String>)
    ensures
        match r {
            Some(rest) => after_colon(s@, 0) == Some(rest@),
            None => after_colon(s@, 0) is None,
        },
{
    let chars = text::chars_of(s);
    let n: usize = chars.len();
    let mut i: usize = 0;
    while i < n
        invariant
            n == chars@.len(),
            chars@ == s@,
            i <= n,
            after_colon(s@, i as int) == after_colon(s@, 0),
        decreases n - i,
    {
        if chars[i] == ':' {
            let rest = text::string_of_range(&chars, i + 1, n);
            assert(rest@ =~= s@.skip(i + 1));
            return Some(rest);
        }
        i += 1;
    }
    None
}

/// The remote reference that a forced push of a branch overwrites.
pub open spec fn destination(branch: Seq<char>, push_ref: Seq<char>) -> Seq<char> {
    match after_colon(push_ref, 0) {
        Some(name) => name,
        None => "refs/heads/"@ + branch,
    }
}

/// How a push is done. `upstream` is the remote reference that the branch
/// follows, where pushes go to the upstream. A forced push of a branch only
/// overwrites what was fetched last.
pub fn push_plan(
    branch: &str,
    ref_type: PushType,
    force: bool,
    delete: bool,
    upstream: Option<&str>,
) -> (r: PushPlan)
    ensures
        ({
            let push_ref = push_reference(
                branch@,
                ref_type,
                force,
                delete,
                match upstream {
                    Some(name) => Some(name@),
                    None => None,
                },
            );
            &&& r.push_ref@ == push_ref
            &&& match r.lease {
                Some(name) => force && !delete && ref_type == PushType::Branch && name@
                    == destination(branch@, push_ref),
                None => !(force && !delete && ref_type == PushType::Branch),
            }
            &&& r.set_upstream == !delete
        }),
{
    let mut push_ref = String::new();
    assert(push_ref@ =~= Seq::empty());
    if force {
        push_ref.append("+");
    } else {
        push_ref.append("");
    }
    if delete {
        push_ref.append(":");
    } else {
        push_ref.append("");
    }
    push_ref.append("refs/");
    match ref_type {
        PushType::Branch => push_ref.append("heads"),
        PushType::Tag => push_ref.append("tags"),
    }
    push_ref.append("/");
    push_ref.append(branch);
    if !delete && ref_type == PushType::Branch {
        match upstream {
            Some(name) => {
                push_ref.append(":");
                push_ref.append(name);
            },
            None => {},
        }
    }
    assert(push_ref@ =~= push_reference(
        branch@,
        ref_type,
        force,
        delete,
        match upstream {
            Some(name) => Some(name@),
            None => None,
        },
    ));
    let lease = if force && !delete && ref_type == PushType::Branch {
        match find_after_colon(push_ref.as_str()) {
            Some(name) => Some(name),
            None => Some(text::join2("refs/heads/", branch)),
        }
    } else {
        None
    };
    PushPlan { push_ref, lease, set_upstream: !delete }
}

// ------------------------------------------------------------------- lease

/// A refspec of a remote, with what it makes of the reference that is pushed
/// to.
#[derive(Debug)]
pub struct Refspec {
    pub fetch: bool,
    pub matches: bool,
    pub mapped: String,
}

/// Why a forced push is refused.
#[derive(Clone, Copy, Debug, PartialEq, Eq, Structural)]
pub enum Refusal {
    PushUrlDiffers,
    AmbiguousTrackingRefs,
    NoMatchingRefspec,
    TrackingRefMissing,
    RemoteChanged,
}

impl Refusal {
    pub open spec fn reason(self, remote: Seq<char>) -> Seq<char> {
        match self {
            Refusal::PushUrlDiffers =>
                "push URL differs from fetch URL; cannot verify the remote branch"@,
            Refusal::AmbiguousTrackingRefs =>
                "ambiguous remote-tracking refs; check fetch refspecs"@,
            Refusal::NoMatchingRefspec =>
                "no matching fetch refspec for the destination branch"@,
            Refusal::TrackingRefMissing => "remote-tracking ref is missing; fetch '"@ + remote
                + "' and retry"@,
            Refusal::RemoteChanged => "remote branch changed since last fetch; fetch '"@ + remote
                + "' and retry"@,
        }
    }

    /// What the user is told.
    pub fn message(&self, remote: &str, destination: &str) -> (r: String)
        ensures
            r@ == "force push to '"@ + destination@ + "' refused: "@ + self.reason(remote@),
    {
        let mut out = "force push to '".to_owned();
        out.append(destination);
        out.append("' refused: ");
        match self {
            Refusal::PushUrlDiffers => out.append(
                "push URL differs from fetch URL; cannot verify the remote branch",
            ),
            Refusal::AmbiguousTrackingRefs => out.append(
                "ambiguous remote-tracking refs; check fetch refspecs",
            ),
            Refusal::NoMatchingRefspec => out.append(
                "no matching fetch refspec for the destination branch",
            ),
            Refusal::TrackingRefMissing => {
                out.append("remote-tracking ref is missing; fetch '");
                out.append(remote);
                out.append("' and retry");
            },
            Refusal::RemoteChanged => {
                out.append("remote branch changed since last fetch; fetch '");
                out.append(remote);
                out.append("' and retry");
            },
        }
        assert(out@ =~= "force push to '"@ + destination@ + "' refused: "@ + self.reason(remote@));
        out
    }
}

/// Whether a refspec tells where the state of the destination is tracked.
pub open spec fn tracks(refspec: Refspec) -> bool {
    refspec.fetch && refspec.matches
}

/// Where the state of the destination is tracked, if the refspecs agree on it.
pub open spec fn tracked_at(
    push_url: Option<String>,
    url: Seq<char>,
    refspecs: Seq<Refspec>,
) -> Result<Seq<char>, Refusal> {
    if push_url matches Some(p) && p@ != url {
        Err(Refusal::PushUrlDiffers)
    } else if exists|i: int, j: int|
        0 <= i < j < refspecs.len() && tracks(#[trigger] refspecs[i]) && tracks(
            #[trigger] refspecs[j],
        ) && refspecs[i].mapped@ != refspecs[j].mapped@ {
        Err(Refusal::AmbiguousTrackingRefs)
    } else if exists|i: int| 0 <= i < refspecs.len() && tracks(#[trigger] refspecs[i]) {
        let i = choose|i: int| 0 <= i < refspecs.len() && tracks(#[trigger] refspecs[i]);
        Ok(refspecs[i].mapped@)
    } else {
        Err(Refusal::NoMatchingRefspec)
    }
}

/// Where the state of the destination is tracked. A push URL may lead to
/// another repository than the one that was fetched from.
pub fn tracking_ref(push_url: &Option<String>, url: &str, refspecs: &Vec<Refspec>) -> (r: Result<
    String,
    Refusal,
>)
    ensures
        match r {
            Ok(name) => tracked_at(*push_url, url@, refspecs@) == Ok::<Seq<char>, Refusal>(name@),
            Err(refusal) => tracked_at(*push_url, url@, refspecs@) == Err::<Seq<char>, Refusal>(
                refusal,
            ),
        },
{
    let differs = match push_url {
        Some(p) => !text::same(p.as_str(), url),
        None => false,
    };
    if differs {
        return Err(Refusal::PushUrlDiffers);
    }
    let mut found: Option<usize> = None;
    for i in 0..refspecs.len()
        invariant
            match found {
                Some(f) => f < i && tracks(refspecs@[f as int]) && forall|j: int|
                    0 <= j < i && tracks(#[trigger] refspecs@[j]) ==> refspecs@[j].mapped@
                        == refspecs@[f as int].mapped@,
                None => forall|j: int| 0 <= j < i ==> !tracks(#[trigger] refspecs@[j]),
            },
            !(push_url matches Some(p) && p@ != url@),
    {
        if refspecs[i].fetch && refspecs[i].matches {
            match found {
                Some(f) => {
                    if !text::same(refspecs[f].mapped.as_str(), refspecs[i].mapped.as_str()) {
                        assert(tracks(refspecs@[f as int]) && tracks(refspecs@[i as int]));
                        return Err(Refusal::AmbiguousTrackingRefs);
                    }
                },
                None => {
                    found = Some(i);
                },
            }
        }
    }
    match found {
        Some(f) => {
            assert(tracks(refspecs@[f as int]));
            Ok(refspecs[f].mapped.clone())
        },
        None => Err(Refusal::NoMatchingRefspec),
    }
}

/// The commit that a remote says a reference is at.
pub open spec fn advertised(heads: Seq<(String, CommitId)>, name: Seq<char>, i: int) -> Option<
    CommitId,
>
    decreases heads.len() - i,
{
    if i < 0 || i >= heads.len() {
        None
    } else if heads[i].0@ == name {
        Some(heads[i].1)
    } else {
        advertised(heads, name, i + 1)
    }
}

/// Whether a forced push may go ahead.
pub open spec fn lease(
    expected: Option<CommitId>,
    heads: Seq<(String, CommitId)>,
    destination: Seq<char>,
) -> Result<(), Refusal> {
    match expected {
        None => Err(Refusal::TrackingRefMissing),
        Some(id) => if advertised(heads, destination, 0) == Some(id) {
            Ok(())
        } else {
            Err(Refusal::RemoteChanged)
        },
    }
}

/// Whether a forced push may go ahead: the remote reference has to be where it
/// was when it was fetched last.
pub fn check_lease(
    expected: Option<CommitId>,
    heads: &Vec<(String, CommitId)>,
    destination: &str,
) -> (r: Result<(), Refusal>)
    ensures
        r == lease(expected, heads@, destination@),
{
    let id = match expected {
        Some(id) => id,
        None => {
            return Err(Refusal::TrackingRefMissing);
        },
    };
    let mut i: usize = 0;
    while i < heads.len()
        invariant
            i <= heads@.len(),
            expected == Some(id),
            advertised(heads@, destination@, i as int) == advertised(heads@, destination@, 0),
        decreases heads@.len() - i,
    {
        if text::same(heads[i].0.as_str(), destination) {
            return if heads[i].1 == id {
                Ok(())
            } else {
                Err(Refusal::RemoteChanged)
            };
        }
        i += 1;
    }
    Err(Refusal::RemoteChanged)
}

/// What the user is told where the remote rejected a push.
pub open spec fn rejection(rejected: Option<(String, String)>) -> Option<Seq<char>> {
    match rejected {
        Some((reference, msg)) => Some(
            "push to '"@ + reference@ + "' rejected: "@ + msg@,
        ),
        None => None,
    }
}

/// What the user is told of a push that the remote rejected.
pub fn push_result(rejected: &Option<(String, String)>) -> (r: Result<(), String>)
    ensures
        match r {
            Ok(_) => rejection(*rejected) is None,
            Err(s) => rejection(*rejected) == Some(s@),
        },
{
    match rejected {
        Some((reference, msg)) => {
            let mut out = "push to '".to_owned();
            out.append(reference.as_str());
            out.append("' rejected: ");
            out.append(msg.as_str());
            Err(out)
        },
        None => Ok(()),
    }
}

/// A forced push never overwrites a commit that was not fetched.
pub proof fn lemma_only_known_commits_are_overwritten(
    expected: Option<CommitId>,
    heads: Seq<(String, CommitId)>,
    destination: Seq<char>,
)
    ensures
        lease(expected, heads, destination) is Ok ==> expected is Some && advertised(
            heads,
            destination,
            0,
        ) == expected,
{
}

/// A push that deletes nothing and is not forced names the local reference
/// first.
pub proof fn lemma_plain_pushes_name_the_branch(branch: Seq<char>, upstream: Option<Seq<char>>)
    ensures
        push_reference(branch, PushType::Branch, false, false, upstream).take(
            ("refs/heads/"@ + branch).len() as int,
        ) == "refs/heads/"@ + branch,
{
    reveal_strlit("");
    reveal_strlit("refs/");
    reveal_strlit("heads");
    reveal_strlit("/");
    reveal_strlit("refs/heads/");
    assert("refs/heads/"@ =~= "refs/"@ + "heads"@ + "/"@);
    assert(push_reference(branch, PushType::Branch, false, false, upstream).take(
        ("refs/heads/"@ + branch).len() as int,
    ) =~= "refs/heads/"@ + branch);
}

proof fn lemma_after_colon(s: Seq<char>, i: int, k: int)
    requires
        0 <= i <= k < s.len(),
        s[k] == ':',
        forall|j: int| i <= j < k ==> #[trigger] s[j] != ':',
    ensures
        after_colon(s, i) == Some(s.skip(k + 1)),
    decreases k - i,
{
    if i < k {
        lemma_after_colon(s, i + 1, k);
    }
}

proof fn lemma_no_colon(s: Seq<char>, i: int)
    requires
        0 <= i,
        forall|j: int| i <= j < s.len() ==> #[trigger] s[j] != ':',
    ensures
        after_colon(s, i) is None,
    decreases s.len() - i,
{
    if i < s.len() {
        lemma_no_colon(s, i + 1);
    }
}

/// What is pushed is written as git reads it: a plus in front forces the push, a
/// colon in front of the name deletes it, and a branch and a tag of one name are
/// apart.
pub proof fn lemma_references_say_what_is_pushed(
    name: Seq<char>,
    force: bool,
    delete: bool,
    upstream: Option<Seq<char>>,
)
    ensures
        ({
            let branch = push_reference(name, PushType::Branch, force, delete, upstream);
            let tag = push_reference(name, PushType::Tag, force, delete, upstream);
            let at = if force {
                1int
            } else {
                0
            };
            &&& branch.len() > 0 && (branch[0] == '+') == force
            &&& tag.len() > 0 && (tag[0] == '+') == force
            &&& branch.len() > at && (branch[at] == ':') == delete
            &&& tag.len() > at && (tag[at] == ':') == delete
            &&& tag == (if force {
                seq!['+']
            } else {
                Seq::empty()
            }) + (if delete {
                seq![':']
            } else {
                Seq::empty()
            }) + "refs/tags/"@ + name
            &&& branch != tag
        }),
{
    reveal_strlit("");
    reveal_strlit("+");
    reveal_strlit(":");
    reveal_strlit("refs/");
    reveal_strlit("heads");
    reveal_strlit("tags");
    reveal_strlit("/");
    reveal_strlit("refs/tags/");
    let branch = push_reference(name, PushType::Branch, force, delete, upstream);
    let tag = push_reference(name, PushType::Tag, force, delete, upstream);
    assert("refs/tags/"@ =~= "refs/"@ + "tags"@ + "/"@);
    assert(tag =~= (if force {
        seq!['+']
    } else {
        Seq::empty()
    }) + (if delete {
        seq![':']
    } else {
        Seq::empty()
    }) + "refs/tags/"@ + name);
    let at = if force {
        1int
    } else {
        0
    } + if delete {
        1int
    } else {
        0
    };
    assert(branch[at + 5] == 'h');
    assert(tag[at + 5] == 't');
}

/// A forced push of a branch is checked against the branch that it overwrites: the
/// upstream if there is one, else the branch of the same name.
pub proof fn lemma_the_overwritten_branch_is_checked(
    branch: Seq<char>,
    force: bool,
    upstream: Option<Seq<char>>,
)
    requires
        forall|i: int| 0 <= i < branch.len() ==> #[trigger] branch[i] != ':',
    ensures
        destination(branch, push_reference(branch, PushType::Branch, force, false, upstream))
            == match upstream {
            Some(name) => name,
            None => "refs/heads/"@ + branch,
        },
{
    reveal_strlit("");
    reveal_strlit("+");
    reveal_strlit(":");
    reveal_strlit("refs/");
    reveal_strlit("heads");
    reveal_strlit("/");
    let r = push_reference(branch, PushType::Branch, force, false, upstream);
    let head = (if force {
        "+"@
    } else {
        ""@
    }) + "refs/"@ + "heads"@ + "/"@ + branch;
    assert forall|j: int| 0 <= j < head.len() implies #[trigger] head[j] != ':' by {
        let at = head.len() - branch.len();
        if j >= at {
            assert(head[j] == branch[j - at]);
        }
    }
    match upstream {
        Some(name) => {
            assert(r =~= head + ":"@ + name);
            let k = head.len() as int;
            assert(r[k] == ':');
            assert forall|j: int| 0 <= j < k implies #[trigger] r[j] != ':' by {
                assert(r[j] == head[j]);
            }
            lemma_after_colon(r, 0, k);
            assert(r.skip(k + 1) =~= name);
        },
        None => {
            assert(r =~= head);
            lemma_no_colon(r, 0);
        },
    }
}

/// A deletion or a tag has no upstream in its reference.
pub proof fn lemma_upstreams_are_for_branches(
    name: Seq<char>,
    force: bool,
    a: Option<Seq<char>>,
    b: Option<Seq<char>>,
)
    ensures
        push_reference(name, PushType::Tag, force, false, a) == push_reference(
            name,
            PushType::Tag,
            force,
            false,
            b,
        ),
        push_reference(name, PushType::Branch, force, true, a) == push_reference(
            name,
            PushType::Branch,
            force,
            true,
            b,
        ),
{
}

proof fn lemma_advertised(heads: Seq<(String, CommitId)>, name: Seq<char>, i: int)
    requires
        0 <= i,
    ensures
        advertised(heads, name, i) matches Some(id) ==> exists|k: int|
            i <= k < heads.len() && (#[trigger] heads[k]).0@ == name && heads[k].1 == id,
        advertised(heads, name, i) is None ==> forall|k: int|
            i <= k < heads.len() ==> (#[trigger] heads[k]).0@ != name,
    decreases heads.len() - i,
{
    if i < heads.len() && heads[i].0@ != name {
        lemma_advertised(heads, name, i + 1);
    }
}

/// A forced push goes ahead exactly if the commit that was fetched is the one that
/// the remote has; each refusal has its own reason.
pub proof fn lemma_when_a_forced_push_goes_ahead(
    expected: Option<CommitId>,
    heads: Seq<(String, CommitId)>,
    destination: Seq<char>,
    k: int,
)
    requires
        0 <= k < heads.len(),
        heads[k].0@ == destination,
        forall|j: int| 0 <= j < heads.len() && j != k ==> (#[trigger] heads[j]).0@ != destination,
    ensures
        lease(expected, heads, destination) is Ok <==> expected == Some(heads[k].1),
        expected is None ==> lease(expected, heads, destination) == Err::<(), Refusal>(
            Refusal::TrackingRefMissing,
        ),
        expected is Some && expected != Some(heads[k].1) ==> lease(expected, heads, destination)
            == Err::<(), Refusal>(Refusal::RemoteChanged),
{
    lemma_advertised(heads, destination, 0);
}

/// A branch that the remote does not have cannot be overwritten.
pub proof fn lemma_missing_branches_are_refused(
    expected: Option<CommitId>,
    heads: Seq<(String, CommitId)>,
    destination: Seq<char>,
)
    requires
        forall|j: int| 0 <= j < heads.len() ==> (#[trigger] heads[j]).0@ != destination,
    ensures
        lease(expected, heads, destination) is Err,
{
    lemma_advertised(heads, destination, 0);
}

/// The reference that tells what was fetched is that of a refspec for fetching
/// which matches the branch. All such refspecs have to agree, and what is pushed to
/// has to be what is fetched from.
pub proof fn lemma_the_tracking_reference(
    push_url: Option<String>,
    url: Seq<char>,
    refspecs: Seq<Refspec>,
    i: int,
)
    requires
        0 <= i < refspecs.len(),
    ensures
        ({
            let found = tracked_at(push_url, url, refspecs);
            &&& (push_url is Some && push_url->0@ != url) ==> found == Err::<Seq<char>, Refusal>(
                Refusal::PushUrlDiffers,
            )
            &&& (found is Ok && refspecs[i].fetch && refspecs[i].matches) ==> found->Ok_0
                == refspecs[i].mapped@
            &&& found is Ok ==> push_url is None || push_url->0@ == url
            &&& found is Ok ==> exists|k: int|
                0 <= k < refspecs.len() && (#[trigger] refspecs[k]).fetch && refspecs[k].matches
                    && refspecs[k].mapped@ == found->Ok_0
        }),
{
    let found = tracked_at(push_url, url, refspecs);
    if found is Ok {
        let k = choose|i: int| 0 <= i < refspecs.len() && tracks(#[trigger] refspecs[i]);
        assert(tracks(refspecs[k]) && refspecs[k].fetch);
        if tracks(refspecs[i]) && refspecs[i].mapped@ != refspecs[k].mapped@ {
            if i < k {
                assert(tracks(refspecs[i]) && tracks(refspecs[k]));
            } else {
                assert(tracks(refspecs[k]) && tracks(refspecs[i]));
            }
        }
    }
}

/// A rejected push is never taken for a success, and what is told names the
/// reference and ends in the remote's own words.
pub proof fn lemma_rejections_are_told(rejected: Option<(String, String)>)
    ensures
        rejection(rejected) is Some <==> rejected is Some,
        rejected is Some ==> {
            let told = rejection(rejected)->0;
            let reference = (rejected->0).0@;
            let msg = (rejected->0).1@;
            &&& told.len() == 9 + reference.len() + 12 + msg.len()
            &&& told.subrange(9, 9 + reference.len() as int) == reference
            &&& told.skip(told.len() - msg.len()) == msg
            &&& told.take(9) == "push to '"@
        },
{
    if rejected is Some {
        let told = rejection(rejected)->0;
        let reference = (rejected->0).0@;
        let msg = (rejected->0).1@;
        reveal_strlit("push to '");
        reveal_strlit("' rejected: ");
        assert(told.subrange(9, 9 + reference.len() as int) =~= reference);
        assert(told.skip(told.len() - msg.len()) =~= msg);
        assert(told.take(9) =~= "push to '"@);
    }
}

/// An operation is done once it says so, and what it reports is told as the share
/// of its own counts.
pub proof fn lemma_reports_tell_their_share(n: ProgressNotification)
    ensures
        n.finished() <==> n == ProgressNotification::Done,
        n matches ProgressNotification::Packing { current, total, .. } ==> (current == total
            && total > 0 ==> n.share() == 100) && (current == 0 && total > 0 ==> n.share() == 0),
        n matches ProgressNotification::PushTransfer { current, total, .. } ==> (current == total
            && total > 0 ==> n.share() == 100) && (current == 0 && total > 0 ==> n.share() == 0),
        n matches ProgressNotification::Transfer { objects, total_objects, .. } ==> (objects
            == total_objects && total_objects > 0 ==> n.share() == 100) && (objects == 0
            && total_objects > 0 ==> n.share() == 0),
        n.finished() ==> n.share() == 100,
{
    match n {
        ProgressNotification::Packing { current, total, .. } => {
            if total > 0 {
                progress::lemma_shares(0, total as int);
            }
        },
        ProgressNotification::PushTransfer { current, total, .. } => {
            if total > 0 {
                progress::lemma_shares(0, total as int);
            }
        },
        ProgressNotification::Transfer { objects, total_objects, .. } => {
            if total_objects > 0 {
                progress::lemma_shares(0, total_objects as int);
            }
        },
        _ => {},
    }
}

/// Behind the first colon stands the destination.
pub proof fn lemma_what_stands_behind_the_colon(a: Seq<char>, b: Seq<char>)
    requires
        forall|i: int| 0 <= i < a.len() ==> a[i] != ':',
    ensures
        after_colon(a.push(':') + b, 0) == Some(b),
        after_colon(a, 0) is None,
{
    lemma_first_colon(a.push(':') + b, 0, a.len() as int);
    assert((a.push(':') + b).skip(a.len() as int + 1) =~= b);
    lemma_no_colon(a, 0);
}

proof fn lemma_first_colon(s: Seq<char>, i: int, at: int)
    requires
        0 <= i <= at < s.len(),
        s[at] == ':',
        forall|k: int| i <= k < at ==> s[k] != ':',
    ensures
        after_colon(s, i) == Some(s.skip(at + 1)),
    decreases at - i,
{
    if i < at {
        lemma_first_colon(s, i + 1, at);
    }
}

} // verus!
