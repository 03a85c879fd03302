//! The files of a commit.
use crate::asyncgit::sync::CommitId;
use crate::paths::{self, compare_parts, components, Component, Part};
use crate::sorting::{self, stable_sort, Ordered};
use crate::text;
use std::cmp::Ordering;
use vstd::prelude::*;
use vstd::string::*;

verus! {

/// A file of a commit.
#[derive(Debug, PartialEq, Eq)]
pub struct TreeFile {
    /// path of this file
    pub path: String,
    /// unix filemode
    pub filemode: i32,
    /// the object that holds the content
    pub id: CommitId,
}

/// What a [`TreeFile`] holds.
pub struct TreeFileView {
    pub path: Seq<char>,
    pub filemode: i32,
    pub id: CommitId,
}

impl View for TreeFile {
    type V = TreeFileView;

    open spec fn view(&self) -> TreeFileView {
        TreeFileView { path: self.path@, filemode: self.filemode, id: self.id }
    }
}

/// A step on the way to a file: whether it is the file itself, and its name.
pub struct Level {
    pub is_file: bool,
    pub part: Option<Part>,
}

/// The steps on the way to a file.
pub open spec fn levels(p: Seq<Part>) -> Seq<Level> {
    if p.len() == 0 {
        seq![Level { is_file: true, part: None }]
    } else {
        Seq::new(p.len(), |i: int| Level { is_file: i == p.len() - 1, part: Some(p[i]) })
    }
}

/// At one level, folders come before files, and then names decide.
pub open spec fn level_order(a: Level, b: Level) -> int {
    if a.is_file && !b.is_file {
        1
    } else if !a.is_file && b.is_file {
        -1
    } else {
        match (a.part, b.part) {
            (Some(x), Some(y)) => paths::part_order(x, y),
            (Some(_), None) => 1,
            (None, Some(_)) => -1,
            (None, None) => 0,
        }
    }
}

/// The order of files in a tree: level by level, folders first.
pub open spec fn tree_order(a: Seq<char>, b: Seq<char>) -> int {
    paths::lex(
        levels(paths::parts(a)),
        levels(paths::parts(b)),
        0,
        |x: Level, y: Level| level_order(x, y),
    )
}

proof fn lemma_level_orders()
    ensures
        paths::orders(|x: Level, y: Level| level_order(x, y)),
{
    paths::lemma_part_orders();
    let p = |x: Part, y: Part| paths::part_order(x, y);
    let f = |x: Level, y: Level| level_order(x, y);
    assert forall|x: Level| #[trigger] f(x, x) == 0 by {
        if let Some(a) = x.part {
            assert(p(a, a) == 0);
        }
    }
    assert forall|x: Level, y: Level| (#[trigger] f(x, y) < 0) == (f(y, x) > 0) by {
        if let (Some(a), Some(b)) = (x.part, y.part) {
            assert((p(a, b) < 0) == (p(b, a) > 0));
        }
    }
    assert forall|x: Level, y: Level| #[trigger] f(x, y) == 0 implies x == y by {
        if let (Some(a), Some(b)) = (x.part, y.part) {
            assert(p(a, b) == 0 ==> a == b);
        }
    }
    assert forall|x: Level, y: Level, z: Level| #[trigger]
        f(x, y) < 0 && #[trigger] f(y, z) < 0 implies f(x, z) < 0 by {
        if let (Some(a), Some(b)) = (x.part, y.part) {
            if let Some(c) = z.part {
                assert(p(a, b) < 0 && p(b, c) < 0 ==> p(a, c) < 0);
            }
        }
    }
}

/// Files are totally ordered, and only files with the same components tie.
pub proof fn lemma_tree_order(a: Seq<char>, b: Seq<char>, c: Seq<char>)
    ensures
        tree_order(a, a) == 0,
        (tree_order(a, b) < 0) == (tree_order(b, a) > 0),
        tree_order(a, b) == 0 ==> paths::parts(a) == paths::parts(b),
        tree_order(a, b) <= 0 && tree_order(b, c) <= 0 ==> tree_order(a, c) <= 0,
{
    lemma_level_orders();
    let f = |x: Level, y: Level| level_order(x, y);
    paths::lemma_lex_orders(f);
    let g = |x: Seq<Level>, y: Seq<Level>| paths::lex(x, y, 0, f);
    let (p, q, r) = (levels(paths::parts(a)), levels(paths::parts(b)), levels(paths::parts(c)));
    assert(g(p, p) == 0);
    assert((g(p, q) < 0) == (g(q, p) > 0));
    assert(g(p, q) == 0 ==> p == q);
    assert(g(q, r) == 0 ==> q == r);
    assert(g(p, q) < 0 && g(q, r) < 0 ==> g(p, r) < 0);
    lemma_levels_injective(paths::parts(a), paths::parts(b));
}

proof fn lemma_levels_injective(p: Seq<Part>, q: Seq<Part>)
    ensures
        levels(p) == levels(q) ==> p == q,
{
    if levels(p) == levels(q) {
        if p.len() == 0 {
            assert(levels(p)[0].part is None);
            if q.len() > 0 {
                assert(levels(q)[0].part is Some);
            }
            assert(p =~= q);
        } else {
            assert(levels(p)[0].part is Some);
            if q.len() == 0 {
                assert(levels(q)[0].part is None);
            }
            assert(levels(p).len() == levels(q).len());
            assert forall|i: int| 0 <= i < p.len() implies p[i] == q[i] by {
                assert(levels(p)[i].part == Some(p[i]));
                assert(levels(q)[i].part == Some(q[i]));
            }
            assert(p =~= q);
        }
    }
}

fn compare_level(a: &Vec<Component>, b: &Vec<Component>, i: usize) -> (r: i8)
    requires
        i < levels(text::views(a@)).len(),
        i < levels(text::views(b@)).len(),
    ensures
        r == paths::sign(
            level_order(levels(text::views(a@))[i as int], levels(text::views(b@))[i as int]),
        ),
{
    let a_is_file = a.len() == 0 || i == a.len() - 1;
    let b_is_file = b.len() == 0 || i == b.len() - 1;
    if a_is_file && !b_is_file {
        return 1;
    }
    if !a_is_file && b_is_file {
        return -1;
    }
    if a.len() > 0 && b.len() > 0 {
        compare_parts(&a[i], &b[i])
    } else if a.len() > 0 {
        1
    } else if b.len() > 0 {
        -1
    } else {
        0
    }
}

fn compare_levels(a: &str, b: &str) -> (r: i8)
    ensures
        r == paths::sign(tree_order(a@, b@)),
{
    let x = components(a);
    let y = components(b);
    let ghost f = |x: Level, y: Level| level_order(x, y);
    let ghost l = levels(text::views(x@));
    let ghost m = levels(text::views(y@));
    let ln: usize = if x.len() == 0 {
        1
    } else {
        x.len()
    };
    let mn: usize = if y.len() == 0 {
        1
    } else {
        y.len()
    };
    let mut i: usize = 0;
    while i < ln && i < mn
        invariant
            ln == l.len(),
            mn == m.len(),
            i <= ln,
            i <= mn,
            l == levels(text::views(x@)),
            m == levels(text::views(y@)),
            l == levels(paths::parts(a@)),
            m == levels(paths::parts(b@)),
            f == (|x: Level, y: Level| level_order(x, y)),
            paths::lex(l, m, i as int, f) == paths::lex(l, m, 0, f),
        decreases ln - i,
    {
        let c: i8 = compare_level(&x, &y, i);
        if c != 0 {
            return c;
        }
        i += 1;
    }
    if i < mn {
        -1
    } else if i < ln {
        1
    } else {
        0
    }
}

/// Compare two different paths: level by level, folders before files.
pub fn path_cmp(a: &str, b: &str) -> (r: Ordering)
    requires
        paths::parts(a@) != paths::parts(b@),
    ensures
        r == if tree_order(a@, b@) < 0 {
            Ordering::Less
        } else {
            Ordering::Greater
        },
        tree_order(a@, b@) != 0,
{
    proof {
        lemma_tree_order(a@, b@, a@);
    }
    if compare_levels(a, b) < 0 {
        Ordering::Less
    } else {
        Ordering::Greater
    }
}

/// Files stand in the order of the tree.
impl Ordered for TreeFile {
    open spec fn before(self, other: Self) -> bool {
        tree_order(self.path@, other.path@) <= 0
    }

    proof fn lemma_reflexive(a: Self) {
        lemma_tree_order(a.path@, a.path@, a.path@);
    }

    proof fn lemma_total(a: Self, b: Self) {
        lemma_tree_order(a.path@, b.path@, a.path@);
    }

    proof fn lemma_transitive(a: Self, b: Self, c: Self) {
        lemma_tree_order(a.path@, b.path@, c.path@);
    }

    fn is_before(&self, other: &Self) -> bool {
        compare_levels(self.path.as_str(), other.path.as_str()) <= 0
    }
}

/// Sort files in the order of the tree.
pub fn sort_file_list(files: Vec<TreeFile>) -> (r: Vec<TreeFile>)
    ensures
        sorting::is_stable_sort(files@, r@),
{
    stable_sort(files)
}

// ------------------------------------------------------------ walking a tree

/// What a tree holds under a name.
#[derive(Debug, PartialEq, Eq)]
pub enum TreeNode {
    File { name: String, filemode: i32, id: CommitId },
    Folder { name: String, nodes: Vec<TreeNode> },
    /// anything else, such as a submodule
    Other,
}

/// A path below another; an absolute path stands for itself.
pub open spec fn below(path: Seq<char>, name: Seq<char>) -> Seq<char> {
    if name.len() > 0 && name[0] == '/' {
        name
    } else if path.len() == 0 || path.last() == '/' {
        path + name
    } else {
        path + seq!['/'] + name
    }
}

fn join_path(path: &str, name: &str) -> (r: String)
    ensures
        r@ == below(path@, name@),
{
    let p = text::chars_of(path);
    let n = text::chars_of(name);
    if n.len() > 0 && n[0] == '/' {
        return name.to_owned();
    }
    let mut out = path.to_owned();
    if p.len() > 0 && p[p.len() - 1] != '/' {
        out.push('/');
    }
    out.append(name);
    assert(out@ =~= below(path@, name@));
    out
}

/// The files of the first `n` nodes, those of folders included.
pub open spec fn files_below(path: Seq<char>, nodes: Seq<TreeNode>, n: int) -> Seq<TreeFileView>
    decreases nodes, n,
    when 0 <= n <= nodes.len()
{
    if n <= 0 {
        Seq::empty()
    } else {
        files_below(path, nodes, n - 1) + match nodes[n - 1] {
            TreeNode::File { name, filemode, id } => seq![
                TreeFileView { path: below(path, name@), filemode, id },
            ],
            TreeNode::Folder { name, nodes: inner } => files_below(
                below(path, name@),
                inner@,
                inner@.len() as int,
            ),
            TreeNode::Other => Seq::empty(),
        }
    }
}

fn tree_recurse(path: &str, nodes: &Vec<TreeNode>, out: &mut Vec<TreeFile>)
    ensures
        text::views(final(out)@) == text::views(old(out)@) + files_below(
            path@,
            nodes@,
            nodes@.len() as int,
        ),
    decreases nodes,
{
    let ghost before = text::views(out@);
    assert(before + Seq::<TreeFileView>::empty() =~= before);
    for i in 0..nodes.len()
        invariant
            text::views(out@) == before + files_below(path@, nodes@, i as int),
    {
        let ghost so_far = text::views(out@);
        match &nodes[i] {
            TreeNode::File { name, filemode, id } => {
                let file = TreeFile {
                    path: join_path(path, name.as_str()),
                    filemode: *filemode,
                    id: *id,
                };
                proof {
                    text::lemma_views_push(out@, file);
                }
                out.push(file);
            },
            TreeNode::Folder { name, nodes: inner } => {
                assert(decreases_to!(nodes => nodes@[i as int]));
                let p = join_path(path, name.as_str());
                tree_recurse(p.as_str(), inner, out);
            },
            TreeNode::Other => {},
        }
        assert(text::views(out@) =~= before + files_below(path@, nodes@, i + 1));
    }
}

/// The files of a tree, in order.
pub fn tree_files(nodes: &Vec<TreeNode>) -> (r: Vec<TreeFile>)
    ensures
        exists|found: Seq<TreeFile>|
            text::views(found) == files_below("./"@, nodes@, nodes@.len() as int)
                && #[trigger] sorting::is_stable_sort(found, r@),
{
    let mut files: Vec<TreeFile> = Vec::new();
    tree_recurse("./", nodes, &mut files);
    let ghost found = files@;
    assert(text::views(found) =~= files_below("./"@, nodes@, nodes@.len() as int));
    let out = sort_file_list(files);
    assert(sorting::is_stable_sort(found, out@));
    out
}

// ------------------------------------------------------------------ contents

/// Where the contents of a changed file are.
#[derive(Debug, PartialEq, Eq)]
pub enum FileSource {
    /// in the index, under an id
    Blob(CommitId),
    /// in the working directory
    File(String),
}

/// Why a changed file has no contents.
#[derive(Debug, PartialEq, Eq)]
pub enum FileSourceError {
    NotInIndex(String),
    NoWorkDir,
}

/// Whether the contents of a changed file are at a place, or cannot be had for a
/// reason.
pub open spec fn is_source(
    path: Seq<char>,
    staged: bool,
    entry: Option<CommitId>,
    workdir: Option<Seq<char>>,
    source: Result<FileSource, FileSourceError>,
) -> bool {
    if staged {
        match entry {
            Some(id) => source == Ok::<FileSource, FileSourceError>(FileSource::Blob(id)),
            None => source matches Err(FileSourceError::NotInIndex(msg)) && msg@
                == "file is not present in the index: "@ + path,
        }
    } else {
        match workdir {
            Some(dir) => source matches Ok(FileSource::File(file)) && file@ == paths::joined_path(
                dir,
                path,
            ),
            None => source == Err::<FileSource, FileSourceError>(FileSourceError::NoWorkDir),
        }
    }
}

/// Where the contents of a changed file are: those that are staged in the index,
/// the others in the working directory. A file can be edited again after it was
/// staged. `entry` is what the index has of it.
pub fn status_file_bytes(
    path: &str,
    staged: bool,
    entry: Option<CommitId>,
    workdir: Option<&str>,
) -> (r: Result<FileSource, FileSourceError>)
    ensures
        is_source(
            path@,
            staged,
            entry,
            match workdir {
                Some(dir) => Some(dir@),
                None => None,
            },
            r,
        ),
{
    if staged {
        match entry {
            Some(id) => Ok(FileSource::Blob(id)),
            None => Err(
                FileSourceError::NotInIndex(
                    text::join2("file is not present in the index: ", path),
                ),
            ),
        }
    } else {
        match workdir {
            Some(dir) => Ok(FileSource::File(paths::join_path(dir, path))),
            None => Err(FileSourceError::NoWorkDir),
        }
    }
}

/// In the order of the tree, a folder's files come before the files beside it.
pub proof fn lemma_folders_come_first(a: Seq<char>, b: Seq<char>, i: int)
    requires
        0 <= i < paths::parts(a).len() - 1,
        paths::parts(b).len() == i + 1,
        paths::parts(a).take(i) == paths::parts(b).take(i),
    ensures
        tree_order(a, b) < 0,
{
    let f = |x: Level, y: Level| level_order(x, y);
    let (p, q) = (paths::parts(a), paths::parts(b));
    lemma_lex_skip(levels(p), levels(q), 0, i, f, p, q);
}

proof fn lemma_lex_skip(
    l: Seq<Level>,
    m: Seq<Level>,
    k: int,
    i: int,
    f: spec_fn(Level, Level) -> int,
    p: Seq<Part>,
    q: Seq<Part>,
)
    requires
        f == (|x: Level, y: Level| level_order(x, y)),
        l == levels(p),
        m == levels(q),
        0 <= k <= i < p.len() - 1,
        q.len() == i + 1,
        p.take(i) == q.take(i),
    ensures
        paths::lex(l, m, k, f) < 0,
    decreases i - k,
{
    if k < i {
        paths::lemma_part_orders();
        let g = |x: Part, y: Part| paths::part_order(x, y);
        assert(p.take(i)[k] == q.take(i)[k]);
        assert(p.take(i)[k] == p[k]);
        assert(q.take(i)[k] == q[k]);
        assert(l[k] == (Level { is_file: false, part: Some(p[k]) }));
        assert(m[k] == (Level { is_file: false, part: Some(q[k]) }));
        assert(g(p[k], p[k]) == 0);
        assert(f(l[k], m[k]) == 0);
        lemma_lex_skip(l, m, k + 1, i, f, p, q);
    } else {
        assert(f(l[i], m[i]) == -1);
    }
}

/// Every file of a tree is listed, under the path that leads to it, with its mode
/// and its content; the files of a folder are listed below the path of the folder.
pub proof fn lemma_every_file_is_listed(path: Seq<char>, nodes: Seq<TreeNode>, n: int, i: int)
    requires
        0 <= i < n <= nodes.len(),
    ensures
        nodes[i] matches TreeNode::File { name, filemode, id } ==> files_below(
            path,
            nodes,
            n,
        ).contains(TreeFileView { path: below(path, name@), filemode, id }),
        nodes[i] matches TreeNode::Folder { name, nodes: inner } ==> forall|k: int|
            0 <= k < files_below(below(path, name@), inner@, inner@.len() as int).len()
                ==> files_below(path, nodes, n).contains(
                #[trigger] files_below(below(path, name@), inner@, inner@.len() as int)[k],
            ),
    decreases n,
{
    let all = files_below(path, nodes, n);
    let before = files_below(path, nodes, n - 1);
    if i < n - 1 {
        lemma_every_file_is_listed(path, nodes, n - 1, i);
        assert forall|f: TreeFileView| before.contains(f) implies #[trigger] all.contains(f) by {
            let k = choose|k: int| 0 <= k < before.len() && before[k] == f;
            assert(all[k] == f);
        }
    } else {
        match nodes[i] {
            TreeNode::File { name, filemode, id } => {
                assert(all[before.len() as int] == (TreeFileView {
                    path: below(path, name@),
                    filemode,
                    id,
                }));
            },
            TreeNode::Folder { name, nodes: inner } => {
                let more = files_below(below(path, name@), inner@, inner@.len() as int);
                assert forall|k: int| 0 <= k < more.len() implies all.contains(
                    #[trigger] more[k],
                ) by {
                    assert(all[before.len() + k] == more[k]);
                }
            },
            TreeNode::Other => {},
        }
    }
}

/// Nothing else is listed: a tree without files lists none, and a file adds one.
pub proof fn lemma_files_are_listed_once(path: Seq<char>, nodes: Seq<TreeNode>, n: int)
    requires
        0 < n <= nodes.len(),
    ensures
        files_below(path, nodes, 0).len() == 0,
        nodes[n - 1] is File ==> files_below(path, nodes, n).len() == files_below(
            path,
            nodes,
            n - 1,
        ).len() + 1,
        nodes[n - 1] is Other ==> files_below(path, nodes, n) == files_below(path, nodes, n - 1),
        nodes[n - 1] matches TreeNode::Folder { name, nodes: inner } ==> files_below(
            path,
            nodes,
            n,
        ).len() == files_below(path, nodes, n - 1).len() + files_below(
            below(path, name@),
            inner@,
            inner@.len() as int,
        ).len(),
{
    assert(files_below(path, nodes, n - 1) + Seq::<TreeFileView>::empty() =~= files_below(
        path,
        nodes,
        n - 1,
    ));
}

/// A path below a folder starts with the folder, and has one separator in front of
/// the name.
pub proof fn lemma_paths_below(path: Seq<char>, name: Seq<char>)
    requires
        !(name.len() > 0 && name[0] == '/'),
    ensures
        below(path, name).take(path.len() as int) == path,
        below(path, name).skip(below(path, name).len() - name.len()) == name,
        path.len() > 0 && path.last() != '/' ==> below(path, name) == path + seq!['/'] + name,
        path.len() > 0 && path.last() == '/' ==> below(path, name) == path + name,
{
    assert(below(path, name).take(path.len() as int) =~= path);
    assert(below(path, name).skip(below(path, name).len() - name.len()) =~= name);
}

/// What is staged is read from the index and never from the working directory,
/// and the other way round; where it lies elsewhere there is an error.
pub proof fn lemma_where_contents_lie(
    path: Seq<char>,
    staged: bool,
    entry: Option<CommitId>,
    workdir: Option<Seq<char>>,
    source: Result<FileSource, FileSourceError>,
)
    requires
        is_source(path, staged, entry, workdir, source),
    ensures
        staged ==> (source is Ok <==> entry is Some),
        !staged ==> (source is Ok <==> workdir is Some),
        source is Ok ==> (source->Ok_0 is Blob <==> staged),
        source is Ok && staged ==> Some(source->Ok_0->Blob_0) == entry,
        source is Ok && !staged ==> source->Ok_0->File_0@ == paths::joined_path(workdir->0, path),
        source is Err ==> (source->Err_0 is NotInIndex <==> staged),
{
}

/// Files of one folder are ordered by their names.
pub proof fn lemma_names_order_files(a: Seq<char>, b: Seq<char>, i: int, x: Seq<char>, y: Seq<char>)
    requires
        0 <= i,
        paths::parts(a).len() == i + 1,
        paths::parts(b).len() == i + 1,
        paths::parts(a).take(i) == paths::parts(b).take(i),
        paths::parts(a)[i] == Part::Name(x),
        paths::parts(b)[i] == Part::Name(y),
    ensures
        tree_order(a, b) == paths::text_order(x, y),
{
    let f = |x: Level, y: Level| level_order(x, y);
    let (p, q) = (paths::parts(a), paths::parts(b));
    lemma_lex_behind(p, q, 0, i, f);
}

proof fn lemma_lex_behind(
    p: Seq<Part>,
    q: Seq<Part>,
    k: int,
    i: int,
    f: spec_fn(Level, Level) -> int,
)
    requires
        f == (|x: Level, y: Level| level_order(x, y)),
        0 <= k <= i,
        p.len() == i + 1,
        q.len() == i + 1,
        p.take(i) == q.take(i),
    ensures
        paths::lex(levels(p), levels(q), k, f) == paths::part_order(p[i], q[i]),
    decreases i - k,
{
    let l = levels(p);
    let m = levels(q);
    if k < i {
        paths::lemma_part_orders();
        let g = |x: Part, y: Part| paths::part_order(x, y);
        assert(p.take(i)[k] == q.take(i)[k]);
        assert(p.take(i)[k] == p[k]);
        assert(q.take(i)[k] == q[k]);
        assert(g(p[k], p[k]) == 0);
        assert(f(l[k], m[k]) == 0);
        lemma_lex_behind(p, q, k + 1, i, f);
    } else {
        reveal_with_fuel(paths::lex, 3);
        assert(f(l[i], m[i]) == paths::part_order(p[i], q[i]));
    }
}

} // verus!
