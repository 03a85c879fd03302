//! A tree of changed files: its rows, which of them are visible and which one
//! is selected.
use crate::asyncgit::sync::status::StatusItem;
use crate::paths;
use crate::text::{self, chars_of, string_of_range};
use vstd::prelude::*;
use vstd::string::*;

verus! {

/// What a row of the tree stands for.
#[derive(Debug, PartialEq, Eq)]
pub enum FileTreeItemKind {
    /// a folder, and whether it is collapsed
    Path(bool),
    File(StatusItem),
}

impl Clone for FileTreeItemKind {
    fn clone(&self) -> (r: FileTreeItemKind)
        ensures
            r == *self,
    {
        match self {
            FileTreeItemKind::Path(collapsed) => FileTreeItemKind::Path(*collapsed),
            FileTreeItemKind::File(item) => FileTreeItemKind::File(item.clone()),
        }
    }
}

/// A row of the tree.
#[derive(Debug, PartialEq, Eq)]
pub struct FileTreeItem {
    /// how deep the row lies in the tree
    pub indent: u8,
    /// whether no folder above it is collapsed
    pub visible: bool,
    /// its name
    pub path: String,
    pub full_path: String,
    pub kind: FileTreeItemKind,
}

impl Clone for FileTreeItem {
    fn clone(&self) -> (r: FileTreeItem)
        ensures
            r == *self,
    {
        FileTreeItem {
            indent: self.indent,
            visible: self.visible,
            path: self.path.clone(),
            full_path: self.full_path.clone(),
            kind: self.kind.clone(),
        }
    }
}

/// What a [`FileTreeItem`] is built of.
pub struct RowView {
    pub indent: int,
    pub name: Seq<char>,
    pub full_path: Seq<char>,
    pub kind: FileTreeItemKind,
}

impl FileTreeItem {
    pub open spec fn row(self) -> RowView {
        RowView {
            indent: self.indent as int,
            name: self.path@,
            full_path: self.full_path@,
            kind: self.kind,
        }
    }

    pub open spec fn is_folder(self) -> bool {
        self.kind is Path
    }

    pub open spec fn is_collapsed(self) -> bool {
        self.kind == FileTreeItemKind::Path(true)
    }
}

// ----------------------------------------------------------------- building

/// A path without separators at its end.
pub open spec fn bare(path: Seq<char>) -> Seq<char>
    decreases path.len(),
{
    if path.len() > 0 && path.last() == '/' {
        bare(path.drop_last())
    } else {
        path
    }
}

/// How many separators a path has.
pub open spec fn separators(path: Seq<char>) -> nat
    decreases path.len(),
{
    if path.len() == 0 {
        0
    } else if path.last() == '/' {
        separators(path.drop_last()) + 1
    } else {
        separators(path.drop_last())
    }
}

/// The last component of a path.
pub open spec fn name_of(path: Seq<char>) -> Seq<char>
    decreases path.len(),
{
    if path.len() == 0 || path.last() == '/' {
        Seq::empty()
    } else {
        name_of(path.drop_last()).push(path.last())
    }
}

pub open spec fn folder_row(path: Seq<char>, collapsed: bool) -> RowView {
    RowView {
        indent: separators(path) as int,
        name: name_of(path),
        full_path: path,
        kind: FileTreeItemKind::Path(collapsed),
    }
}

pub open spec fn file_row(item: StatusItem) -> RowView {
    RowView {
        indent: separators(bare(item.path@)) as int,
        name: paths::name_of(item.path@).unwrap_or(Seq::empty()),
        full_path: item.path@,
        kind: FileTreeItemKind::File(item),
    }
}

pub open spec fn has_folder(rows: Seq<RowView>, path: Seq<char>) -> bool {
    exists|i: int|
        0 <= i < rows.len() && (#[trigger] rows[i]).kind is Path && rows[i].full_path == path
}

/// The rows after the folders on the way to a file have been added, as far as
/// the first `n` characters of its path tell. A folder is added once.
pub open spec fn with_folders(
    rows: Seq<RowView>,
    path: Seq<char>,
    collapsed: Set<Seq<char>>,
    n: int,
) -> Seq<RowView>
    decreases n,
{
    if n <= 1 {
        rows
    } else {
        let before = with_folders(rows, path, collapsed, n - 1);
        let folder = path.take(n - 1);
        if path[n - 1] == '/' && !has_folder(before, folder) {
            before.push(folder_row(folder, collapsed.contains(folder)))
        } else {
            before
        }
    }
}

/// The rows of the first `n` files, each with the folders on the way to it.
pub open spec fn built(list: Seq<StatusItem>, collapsed: Set<Seq<char>>, n: int) -> Seq<RowView>
    decreases n,
{
    if n <= 0 {
        Seq::empty()
    } else {
        let item = list[n - 1];
        with_folders(
            built(list, collapsed, n - 1),
            bare(item.path@),
            collapsed,
            bare(item.path@).len() as int,
        ).push(file_row(item))
    }
}

pub open spec fn rows(items: Seq<FileTreeItem>) -> Seq<RowView> {
    Seq::new(items.len(), |i: int| items[i].row())
}

/// Whether some folder above row `i` is collapsed.
pub open spec fn is_hidden(items: Seq<FileTreeItem>, i: int) -> bool {
    exists|j: int|
        0 <= j < items.len() && (#[trigger] items[j]).is_collapsed() && is_below(
            items[i].full_path@,
            items[j].full_path@,
        )
}

/// Whether a path lies below a folder.
pub open spec fn is_below(path: Seq<char>, folder: Seq<char>) -> bool {
    path.len() > folder.len() && path.take(folder.len() as int) == folder && path[folder.len() as int]
        == '/'
}

/// Whether exactly the rows below collapsed folders are invisible.
pub open spec fn visibility_holds(items: Seq<FileTreeItem>) -> bool {
    forall|i: int| 0 <= i < items.len() ==> (#[trigger] items[i]).visible == !is_hidden(items, i)
}

/// The folders that are collapsed.
pub open spec fn collapsed_paths(items: Seq<FileTreeItem>) -> Set<Seq<char>> {
    Set::new(
        |path: Seq<char>|
            exists|i: int|
                0 <= i < items.len() && (#[trigger] items[i]).is_collapsed() && items[i].full_path@
                    == path,
    )
}

fn starts_with(s: &Vec<char>, prefix: &Vec<char>) -> (r: bool)
    ensures
        r == (s@.len() >= prefix@.len() && s@.take(prefix@.len() as int) == prefix@),
{
    if s.len() < prefix.len() {
        return false;
    }
    for i in 0..prefix.len()
        invariant
            s@.len() >= prefix@.len(),
            forall|j: int| 0 <= j < i ==> s@[j] == prefix@[j],
    {
        if s[i] != prefix[i] {
            assert(s@.take(prefix@.len() as int)[i as int] != prefix@[i as int]);
            return false;
        }
    }
    assert(s@.take(prefix@.len() as int) =~= prefix@);
    true
}

fn lies_below(path: &str, folder: &str) -> (r: bool)
    ensures
        r == is_below(path@, folder@),
{
    let p = chars_of(path);
    let f = chars_of(folder);
    p.len() > f.len() && p[f.len()] == '/' && starts_with(&p, &f)
}

fn count_separators(chars: &Vec<char>, n: usize) -> (r: usize)
    requires
        n <= chars@.len(),
    ensures
        r == separators(chars@.take(n as int)),
        r <= n,
{
    let mut count: usize = 0;
    assert(chars@.take(0) =~= Seq::empty());
    for i in 0..n
        invariant
            n <= chars@.len(),
            count == separators(chars@.take(i as int)),
            count <= i,
    {
        assert(chars@.take(i + 1).drop_last() =~= chars@.take(i as int));
        if chars[i] == '/' {
            count += 1;
        }
    }
    count
}

proof fn lemma_name_of(s: Seq<char>, from: int)
    requires
        0 <= from <= s.len(),
        forall|i: int| from <= i < s.len() ==> #[trigger] s[i] != '/',
        from > 0 ==> s[from - 1] == '/',
    ensures
        name_of(s) == s.subrange(from, s.len() as int),
    decreases s.len(),
{
    if from == s.len() {
        assert(s.subrange(from, s.len() as int) =~= Seq::empty());
    } else {
        let t = s.drop_last();
        assert forall|i: int| from <= i < t.len() implies #[trigger] t[i] != '/' by {
            assert(t[i] == s[i]);
        }
        lemma_name_of(t, from);
        assert(s.subrange(from, s.len() as int) =~= t.subrange(from, t.len() as int).push(
            s.last(),
        ));
    }
}

fn last_component(chars: &Vec<char>, n: usize) -> (r: String)
    requires
        n <= chars@.len(),
    ensures
        r@ == name_of(chars@.take(n as int)),
{
    let ghost s = chars@.take(n as int);
    let mut from: usize = n;
    while from > 0 && chars[from - 1] != '/'
        invariant
            from <= n <= chars@.len(),
            s == chars@.take(n as int),
            forall|i: int| from <= i < n ==> #[trigger] s[i] != '/',
        decreases from,
    {
        assert(s[from - 1] == chars@[from - 1]);
        from -= 1;
    }
    proof {
        if from > 0 {
            assert(s[from - 1] == chars@[from - 1]);
        }
        lemma_name_of(s, from as int);
    }
    let r = string_of_range(chars, from, n);
    assert(r@ =~= s.subrange(from as int, n as int));
    r
}

fn find_folder(items: &Vec<FileTreeItem>, path: &str) -> (r: bool)
    ensures
        r == has_folder(rows(items@), path@),
{
    let mut n: usize = items.len();
    while n > 0
        invariant
            n <= items@.len(),
            forall|i: int|
                n <= i < items@.len() ==> !((#[trigger] items@[i]).is_folder()
                    && items@[i].full_path@ == path@),
        decreases n,
    {
        n -= 1;
        let is_folder = match items[n].kind {
            FileTreeItemKind::Path(_) => true,
            _ => false,
        };
        if is_folder && text::same(items[n].full_path.as_str(), path) {
            assert(rows(items@)[n as int].full_path == path@);
            return true;
        }
    }
    assert forall|i: int| 0 <= i < items@.len() implies !((
    #[trigger] rows(items@)[i]).kind is Path && rows(items@)[i].full_path == path@) by {
        assert(!(items@[i].is_folder() && items@[i].full_path@ == path@));
    }
    false
}

fn contains_path(list: &Vec<String>, path: &str) -> (r: bool)
    ensures
        r == text::views(list@).contains(path@),
{
    for i in 0..list.len()
        invariant
            forall|j: int| 0 <= j < i ==> (#[trigger] list@[j])@ != path@,
    {
        if text::same(list[i].as_str(), path) {
            assert(text::views(list@)[i as int] == path@);
            return true;
        }
    }
    assert forall|i: int| 0 <= i < list@.len() implies #[trigger] text::views(list@)[i] != path@ by {
        assert(list@[i]@ != path@);
    }
    false
}

/// Why a list of files makes no tree.
#[derive(Clone, Copy, Debug, PartialEq, Eq, Structural)]
pub enum TreeError {
    /// a path has more levels than can be counted
    TooDeep,
    /// a path leads to no file
    Nameless,
}

/// Why a file cannot stand in a tree, if it cannot.
pub open spec fn refusal(item: StatusItem) -> Option<TreeError> {
    if separators(bare(item.path@)) > 255 {
        Some(TreeError::TooDeep)
    } else if paths::name_of(item.path@) is None {
        Some(TreeError::Nameless)
    } else {
        None
    }
}

/// Why the first of `n` files that cannot stand in a tree cannot, if there is
/// one.
pub open spec fn refusal_among(list: Seq<StatusItem>, n: int) -> Option<TreeError>
    decreases n,
{
    if n <= 0 {
        None
    } else if refusal_among(list, n - 1) is Some {
        refusal_among(list, n - 1)
    } else {
        refusal(list[n - 1])
    }
}

/// Why a list of files makes no tree, if it makes none.
pub open spec fn list_refusal(list: Seq<StatusItem>) -> Option<TreeError> {
    refusal_among(list, list.len() as int)
}

proof fn lemma_refusal_stays(list: Seq<StatusItem>, i: int, n: int)
    requires
        0 <= i <= n,
        refusal_among(list, i) is Some,
    ensures
        refusal_among(list, n) == refusal_among(list, i),
    decreases n - i,
{
    if i < n {
        lemma_refusal_stays(list, i, n - 1);
    }
}

/// Whether each file has the name that its path ends in.
pub open spec fn are_named(rows: Seq<RowView>) -> bool {
    forall|i: int|
        0 <= i < rows.len() ==> ((#[trigger] rows[i]).kind matches FileTreeItemKind::File(item)
            ==> paths::name_of(item.path@) == Some(rows[i].name))
}

proof fn lemma_folders_named(
    rows: Seq<RowView>,
    path: Seq<char>,
    collapsed: Set<Seq<char>>,
    n: int,
)
    requires
        are_named(rows),
    ensures
        are_named(with_folders(rows, path, collapsed, n)),
    decreases n,
{
    if n > 1 {
        lemma_folders_named(rows, path, collapsed, n - 1);
    }
}

proof fn lemma_built_named(list: Seq<StatusItem>, collapsed: Set<Seq<char>>, n: int)
    requires
        0 <= n <= list.len(),
        refusal_among(list, n) is None,
    ensures
        are_named(built(list, collapsed, n)),
    decreases n,
{
    if n > 0 {
        lemma_built_named(list, collapsed, n - 1);
        let path = bare(list[n - 1].path@);
        lemma_folders_named(built(list, collapsed, n - 1), path, collapsed, path.len() as int);
    }
}

proof fn lemma_separators_prefix(s: Seq<char>, n: int)
    requires
        0 <= n <= s.len(),
    ensures
        separators(s.take(n)) <= separators(s),
    decreases s.len() - n,
{
    if n == s.len() {
        assert(s.take(n) =~= s);
    } else {
        lemma_separators_prefix(s, n + 1);
        assert(s.take(n + 1).drop_last() =~= s.take(n));
    }
}

/// The characters of a path without separators at its end.
fn bare_chars(path: &str) -> (r: Vec<char>)
    ensures
        r@ == bare(path@),
{
    let mut chars = chars_of(path);
    while chars.len() > 0 && chars[chars.len() - 1] == '/'
        invariant
            bare(chars@) == bare(path@),
        decreases chars@.len(),
    {
        let ghost before = chars@;
        chars.pop();
        assert(chars@ =~= before.drop_last());
    }
    chars
}

fn build_items(list: &Vec<StatusItem>, collapsed: &Vec<String>) -> (r: Result<
    Vec<FileTreeItem>,
    TreeError,
>)
    ensures
        match r {
            Ok(items) => list_refusal(list@) is None && rows(items@) == built(
                list@,
                text::views(collapsed@).to_set(),
                list@.len() as int,
            ),
            Err(error) => list_refusal(list@) == Some(error),
        },
{
    let ghost set = text::views(collapsed@).to_set();
    let mut items: Vec<FileTreeItem> = Vec::new();
    assert(rows(items@) =~= Seq::empty());
    for i in 0..list.len()
        invariant
            set == text::views(collapsed@).to_set(),
            rows(items@) == built(list@, set, i as int),
            refusal_among(list@, i as int) is None,
    {
        let path = bare_chars(list[i].path.as_str());
        let n: usize = path.len();
        assert(path@.take(n as int) =~= path@);
        let depth: usize = count_separators(&path, n);
        if depth > 255 {
            proof {
                lemma_refusal_stays(list@, i + 1, list@.len() as int);
            }
            return Err(TreeError::TooDeep);
        }
        let name = match paths::file_name(list[i].path.as_str()) {
            Some(name) => name,
            None => {
                proof {
                    lemma_refusal_stays(list@, i + 1, list@.len() as int);
                }
                return Err(TreeError::Nameless);
            },
        };
        let ghost before = rows(items@);
        let mut k: usize = 1;
        while k < n
            invariant
                set == text::views(collapsed@).to_set(),
                n == path@.len(),
                n >= 1 ==> 1 <= k <= n,
                n == 0 ==> k == 1,
                separators(path@) <= 255,
                rows(items@) == with_folders(before, path@, set, k as int),
            decreases n - k,
        {
            if path[k] == '/' {
                let folder = string_of_range(&path, 0, k);
                assert(folder@ =~= path@.take(k as int));
                if !find_folder(&items, folder.as_str()) {
                    proof {
                        lemma_separators_prefix(path@, k as int);
                    }
                    let is_collapsed = contains_path(collapsed, folder.as_str());
                    let indent: usize = count_separators(&path, k);
                    let item = FileTreeItem {
                        indent: indent as u8,
                        visible: true,
                        path: last_component(&path, k),
                        full_path: folder,
                        kind: FileTreeItemKind::Path(is_collapsed),
                    };
                    let ghost old_rows = rows(items@);
                    items.push(item);
                    assert(rows(items@) =~= old_rows.push(item.row()));
                }
            }
            k += 1;
        }
        let item = FileTreeItem {
            indent: depth as u8,
            visible: true,
            path: name,
            full_path: list[i].path.clone(),
            kind: FileTreeItemKind::File(list[i].clone()),
        };
        let ghost old_rows = rows(items@);
        items.push(item);
        assert(old_rows == with_folders(before, path@, set, n as int));
        assert(item.row() == file_row(list@[i as int]));
        assert(rows(items@) =~= old_rows.push(item.row()));
    }
    Ok(items)
}

/// Set which rows are visible: all but those below collapsed folders.
fn update_visibility(items: &mut Vec<FileTreeItem>)
    ensures
        final(items)@.len() == old(items)@.len(),
        forall|i: int|
            0 <= i < old(items)@.len() ==> #[trigger] final(items)@[i] == (FileTreeItem {
                visible: !is_hidden(old(items)@, i),
                ..old(items)@[i]
            }),
{
    let ghost all = items@;
    let n: usize = items.len();
    let mut folded: Vec<usize> = Vec::new();
    for j in 0..n
        invariant
            n == items@.len(),
            items@ == all,
            forall|k: int|
                0 <= k < folded@.len() ==> #[trigger] folded@[k] < n && all[folded@[k] as int].is_collapsed(),
            forall|m: int|
                0 <= m < j && (#[trigger] all[m]).is_collapsed() ==> folded@.contains(m as usize),
    {
        let is_folded = match items[j].kind {
            FileTreeItemKind::Path(c) => c,
            _ => false,
        };
        let ghost before = folded@;
        if is_folded {
            folded.push(j);
        }
        assert forall|m: int|
            0 <= m < j + 1 && (#[trigger] all[m]).is_collapsed() implies folded@.contains(
            m as usize,
        ) by {
            if m < j {
                assert(before.contains(m as usize));
                let k = choose|k: int| 0 <= k < before.len() && before[k] == m as usize;
                assert(folded@[k] == m as usize);
            } else {
                assert(folded@[folded@.len() - 1] == j);
            }
        }
    }
    for i in 0..n
        invariant
            n == items@.len() == all.len(),
            forall|k: int|
                0 <= k < folded@.len() ==> #[trigger] folded@[k] < n && all[folded@[k] as int].is_collapsed(),
            forall|m: int|
                0 <= m < n && (#[trigger] all[m]).is_collapsed() ==> folded@.contains(m as usize),
            forall|m: int|
                0 <= m < i ==> #[trigger] items@[m] == (FileTreeItem {
                    visible: !is_hidden(all, m),
                    ..all[m]
                }),
            forall|m: int| i <= m < n ==> #[trigger] items@[m] == all[m],
    {
        let mut hidden = false;
        for k in 0..folded.len()
            invariant
                n == items@.len() == all.len(),
                i < n,
                forall|k: int|
                    0 <= k < folded@.len() ==> #[trigger] folded@[k] < n && all[folded@[k] as int].is_collapsed(),
                forall|m: int| 0 <= m < n ==> (#[trigger] items@[m]).full_path == all[m].full_path,
                hidden == exists|m: int|
                    0 <= m < k && is_below(
                        all[i as int].full_path@,
                        all[(#[trigger] folded@[m]) as int].full_path@,
                    ),
        {
            let below = lies_below(
                items[i].full_path.as_str(),
                items[folded[k]].full_path.as_str(),
            );
            if below {
                assert(is_below(
                    all[i as int].full_path@,
                    all[folded@[k as int] as int].full_path@,
                ));
                hidden = true;
            }
        }
        proof {
            if hidden {
                let m = choose|m: int|
                    0 <= m < folded@.len() && is_below(
                        all[i as int].full_path@,
                        all[(#[trigger] folded@[m]) as int].full_path@,
                    );
                assert(all[folded@[m] as int].is_collapsed());
                assert(is_hidden(all, i as int));
            } else if is_hidden(all, i as int) {
                let j = choose|j: int|
                    0 <= j < all.len() && (#[trigger] all[j]).is_collapsed() && is_below(
                        all[i as int].full_path@,
                        all[j].full_path@,
                    );
                assert(folded@.contains(j as usize));
                let k = choose|k: int| 0 <= k < folded@.len() && folded@[k] == j as usize;
                assert(is_below(all[i as int].full_path@, all[folded@[k] as int].full_path@));
            }
        }
        let mut item = items[i].clone();
        item.visible = !hidden;
        items.set(i, item);
    }
}

// ------------------------------------------------------------------ folding

/// The first row from `j` on that is no deeper than row `i`, or the end.
pub open spec fn subtree_end(items: Seq<FileTreeItem>, i: int, j: int) -> int
    decreases items.len() - j,
{
    if j >= items.len() {
        items.len() as int
    } else if items[i].indent < items[j].indent {
        subtree_end(items, i, j + 1)
    } else {
        j
    }
}

/// Whether row `i` is followed by a sibling.
pub open spec fn has_sibling(items: Seq<FileTreeItem>, i: int) -> bool {
    let end = subtree_end(items, i, i + 1);
    i + 2 < items.len() && end < items.len() && items[end].indent == items[i].indent
}

/// Whether the folder in row `i + 1` is alone in the folder in row `i`, so
/// that both share a row.
pub open spec fn folds(items: Seq<FileTreeItem>, i: int) -> bool {
    i + 2 < items.len() && items[i].indent < items[i + 1].indent && items[i + 1].is_folder()
        && !has_sibling(items, i + 1)
}

/// The last row that shares the row of `i`.
pub open spec fn chain_end(items: Seq<FileTreeItem>, i: int) -> int
    decreases items.len() - i,
{
    if folds(items, i) {
        chain_end(items, i + 1)
    } else {
        i
    }
}

/// The rows from `i` on that are not folded into the one before.
pub open spec fn heads(items: Seq<FileTreeItem>, i: int) -> Seq<int>
    decreases items.len() - i,
{
    if i < 0 || i >= items.len() {
        Seq::empty()
    } else if !(i <= chain_end(items, i) < items.len()) {
        Seq::empty()
    } else {
        seq![i] + heads(items, chain_end(items, i) + 1)
    }
}

/// The names of row `i` and of those that share it.
pub open spec fn folded_name(items: Seq<FileTreeItem>, i: int, end: int) -> Seq<char>
    decreases end - i,
{
    if end <= i {
        items[i].path@
    } else {
        folded_name(items, i, end - 1) + seq!['/'] + items[end].path@
    }
}

proof fn lemma_chain_end(items: Seq<FileTreeItem>, i: int)
    requires
        0 <= i < items.len(),
    ensures
        i <= chain_end(items, i) < items.len(),
    decreases items.len() - i,
{
    if folds(items, i) {
        lemma_chain_end(items, i + 1);
    }
}

pub(crate) fn multiple_items_at_path(items: &Vec<FileTreeItem>, index: usize) -> (r: bool)
    requires
        index < items@.len(),
    ensures
        r == has_sibling(items@, index as int),
{
    let n: usize = items.len();
    if n - index <= 2 {
        return false;
    }
    let mut j: usize = index + 1;
    while j < n && items[index].indent < items[j].indent
        invariant
            n == items@.len(),
            index < n,
            j <= n,
            subtree_end(items@, index as int, j as int) == subtree_end(
                items@,
                index as int,
                index + 1,
            ),
        decreases n - j,
    {
        j += 1;
    }
    j < n && items[j].indent == items[index].indent
}

fn folds_next(items: &Vec<FileTreeItem>, index: usize) -> (r: bool)
    requires
        index < items@.len(),
    ensures
        r == folds(items@, index as int),
{
    let n: usize = items.len();
    if n - index <= 2 {
        return false;
    }
    if items[index].indent >= items[index + 1].indent {
        return false;
    }
    match items[index + 1].kind {
        FileTreeItemKind::File(_) => false,
        FileTreeItemKind::Path(_) => !multiple_items_at_path(items, index + 1),
    }
}

/// A row as it is drawn.
#[derive(Debug, PartialEq, Eq)]
pub struct TextDrawInfo {
    pub name: String,
    pub indent: u8,
    pub visible: bool,
    pub item_kind: FileTreeItemKind,
    /// the row of the tree that it stands for
    pub source_index: usize,
}

/// What a [`TextDrawInfo`] holds.
pub struct DrawRow {
    pub name: Seq<char>,
    pub indent: u8,
    pub visible: bool,
    pub kind: FileTreeItemKind,
    pub source: int,
}

impl View for TextDrawInfo {
    type V = DrawRow;

    open spec fn view(&self) -> DrawRow {
        DrawRow {
            name: self.name@,
            indent: self.indent,
            visible: self.visible,
            kind: self.item_kind,
            source: self.source_index as int,
        }
    }
}

pub open spec fn draw_row(items: Seq<FileTreeItem>, i: int) -> DrawRow {
    DrawRow {
        name: folded_name(items, i, chain_end(items, i)),
        indent: items[i].indent,
        visible: items[i].visible,
        kind: items[i].kind,
        source: i,
    }
}

/// The visible rows among the first `n` of the given ones.
pub open spec fn drawn_rows(items: Seq<FileTreeItem>, tops: Seq<int>, n: int) -> Seq<DrawRow>
    decreases n,
{
    if n <= 0 {
        Seq::empty()
    } else {
        let before = drawn_rows(items, tops, n - 1);
        if items[tops[n - 1]].visible {
            before.push(draw_row(items, tops[n - 1]))
        } else {
            before
        }
    }
}

/// The rows that are drawn.
pub open spec fn all_drawn(items: Seq<FileTreeItem>) -> Seq<DrawRow> {
    drawn_rows(items, heads(items, 0), heads(items, 0).len() as int)
}

fn find_heads(items: &Vec<FileTreeItem>) -> (r: Vec<usize>)
    ensures
        r@.len() == heads(items@, 0).len(),
        forall|k: int| 0 <= k < r@.len() ==> #[trigger] r@[k] == heads(items@, 0)[k],
        forall|k: int| 0 <= k < r@.len() ==> #[trigger] r@[k] < items@.len(),
{
    let ghost all = heads(items@, 0);
    let n: usize = items.len();
    let mut out: Vec<usize> = Vec::new();
    let mut i: usize = 0;
    while i < n
        invariant
            n == items@.len(),
            i <= n,
            all == heads(items@, 0),
            out@.len() + heads(items@, i as int).len() == all.len(),
            forall|k: int| 0 <= k < out@.len() ==> #[trigger] out@[k] == all[k],
            forall|k: int| 0 <= k < out@.len() ==> #[trigger] out@[k] < n,
            forall|k: int|
                0 <= k < heads(items@, i as int).len() ==> #[trigger] heads(items@, i as int)[k]
                    == all[out@.len() + k],
        decreases n - i,
    {
        let ghost here = heads(items@, i as int);
        let ghost before = out@;
        let mut end: usize = i;
        proof {
            lemma_chain_end(items@, i as int);
        }
        while folds_next(items, end)
            invariant
                n == items@.len(),
                i <= end < n,
                chain_end(items@, end as int) == chain_end(items@, i as int),
                chain_end(items@, i as int) < n,
            decreases n - end,
        {
            end += 1;
        }
        proof {
            assert(here =~= seq![i as int] + heads(items@, end + 1));
            assert(here[0] == all[out@.len() as int]);
            assert forall|k: int|
                0 <= k < heads(items@, end + 1).len() implies #[trigger] heads(items@, end + 1)[k]
                == all[out@.len() + 1 + k] by {
                assert(here[k + 1] == heads(items@, end + 1)[k]);
            }
        }
        out.push(i);
        i = end + 1;
    }
    out
}

fn name_of_row(items: &Vec<FileTreeItem>, i: usize) -> (r: String)
    requires
        i < items@.len(),
    ensures
        r@ == folded_name(items@, i as int, chain_end(items@, i as int)),
{
    let mut end: usize = i;
    let mut name = items[i].path.clone();
    let n: usize = items.len();
    while folds_next(items, end)
        invariant
            n == items@.len(),
            i <= end < n,
            chain_end(items@, end as int) == chain_end(items@, i as int),
            name@ == folded_name(items@, i as int, end as int),
        decreases items@.len() - end,
    {
        end += 1;
        name.push('/');
        name.append(items[end].path.as_str());
        assert(name@ =~= folded_name(items@, i as int, end as int));
    }
    name
}

/// The rows to draw: a folder that is alone in its folder shares its row, and
/// what is below collapsed folders is left out.
pub fn build_draw_info(items: &Vec<FileTreeItem>) -> (r: Vec<TextDrawInfo>)
    ensures
        text::views(r@) == all_drawn(items@),
{
    let tops = find_heads(items);
    let ghost all = heads(items@, 0);
    let mut out: Vec<TextDrawInfo> = Vec::new();
    assert(text::views(out@) =~= Seq::empty());
    for k in 0..tops.len()
        invariant
            all == heads(items@, 0),
            tops@.len() == all.len(),
            forall|k: int| 0 <= k < tops@.len() ==> #[trigger] tops@[k] == all[k],
            forall|k: int| 0 <= k < tops@.len() ==> #[trigger] tops@[k] < items@.len(),
            text::views(out@) == drawn_rows(items@, all, k as int),
    {
        let i: usize = tops[k];
        if items[i].visible {
            let row = TextDrawInfo {
                name: name_of_row(items, i),
                indent: items[i].indent,
                visible: items[i].visible,
                item_kind: items[i].kind.clone(),
                source_index: i,
            };
            proof {
                text::lemma_views_push(out@, row);
            }
            out.push(row);
        }
    }
    out
}

// ---------------------------------------------------------------- selection

/// A move of the selection.
#[derive(Clone, Copy, Debug, PartialEq, Eq, Structural)]
pub enum MoveSelection {
    Up,
    Down,
    Left,
    Right,
    Home,
    End,
    PageDown,
    PageUp,
}

/// The position of the last of the first `n` heads that is not behind row `cur`.
pub open spec fn head_position(tops: Seq<int>, cur: int, n: int) -> int
    decreases n,
{
    if n <= 1 {
        0
    } else if tops[n - 1] <= cur {
        n - 1
    } else {
        head_position(tops, cur, n - 1)
    }
}

/// The nearest visible head before position `p`, or the first head.
pub open spec fn head_above(items: Seq<FileTreeItem>, tops: Seq<int>, p: int) -> int
    decreases p,
{
    if p <= 0 {
        tops[0]
    } else if p == 1 || items[tops[p - 1]].visible {
        tops[p - 1]
    } else {
        head_above(items, tops, p - 1)
    }
}

/// The nearest visible head behind position `p`, or `cur`.
pub open spec fn head_below(items: Seq<FileTreeItem>, tops: Seq<int>, p: int, cur: int) -> int
    decreases tops.len() - p,
{
    if p + 1 >= tops.len() {
        cur
    } else if items[tops[p + 1]].visible {
        tops[p + 1]
    } else {
        head_below(items, tops, p + 1, cur)
    }
}

/// The last visible row up to `i`, or the first row.
pub open spec fn visible_up_to(items: Seq<FileTreeItem>, i: int) -> int
    decreases i,
{
    if i <= 0 || items[i].visible {
        i
    } else {
        visible_up_to(items, i - 1)
    }
}

/// The row up to `i` that is less deep than row `cur`, or the first row.
pub open spec fn parent_up_to(items: Seq<FileTreeItem>, cur: int, i: int) -> int
    decreases i,
{
    if i <= 0 || items[i].indent < items[cur].indent {
        i
    } else {
        parent_up_to(items, cur, i - 1)
    }
}

/// Where a page upwards ends: at the visible head that is `left` rows up,
/// counting from row `i`, or as near to it as there is one.
pub open spec fn page_up(
    items: Seq<FileTreeItem>,
    tops: Seq<int>,
    i: int,
    left: int,
    best: int,
) -> int
    decreases i + 1,
{
    if i < 0 || left <= 0 {
        best
    } else if tops.contains(i) && items[i].visible {
        page_up(items, tops, i - 1, left - 1, i)
    } else {
        page_up(items, tops, i - 1, left, best)
    }
}

/// Where a page downwards ends.
pub open spec fn page_down(
    items: Seq<FileTreeItem>,
    tops: Seq<int>,
    i: int,
    left: int,
    best: int,
) -> int
    decreases items.len() - i,
{
    if i >= items.len() || left <= 0 {
        best
    } else if tops.contains(i) && items[i].visible {
        page_down(items, tops, i + 1, left - 1, i)
    } else {
        page_down(items, tops, i + 1, left, best)
    }
}

/// A tree of changed files and the selection in it.
pub struct StatusTree {
    pub items: Vec<FileTreeItem>,
    pub selection: Option<usize>,
    /// how many files are in the tree
    pub files: usize,
    /// how many rows the window shows
    pub window_height: Option<usize>,
}

impl StatusTree {
    /// What holds of every tree: visibility follows from the collapsed folders,
    /// files have names, and what is selected exists.
    pub open spec fn wf(self) -> bool {
        &&& visibility_holds(self.items@)
        &&& are_named(rows(self.items@))
        &&& self.selection matches Some(i) ==> i < self.items@.len()
    }

    /// The row that a move leads to, where it does not change the tree.
    pub open spec fn target(self, cur: int, dir: MoveSelection) -> int {
        let items = self.items@;
        let tops = heads(items, 0);
        let at = head_position(tops, cur, tops.len() as int);
        let page = match self.window_height {
            Some(h) => h as int,
            None => 0,
        };
        match dir {
            MoveSelection::Up => head_above(items, tops, at),
            MoveSelection::Down => head_below(items, tops, at, cur),
            MoveSelection::Left => parent_up_to(items, cur, cur),
            MoveSelection::Right => if items[cur].is_folder() {
                head_below(items, tops, at, cur)
            } else {
                cur
            },
            MoveSelection::Home => 0,
            MoveSelection::End => visible_up_to(items, items.len() - 1),
            MoveSelection::PageUp => page_up(items, tops, cur, page, cur),
            MoveSelection::PageDown => page_down(items, tops, cur, page, cur),
        }
    }

    /// Whether a move collapses or expands the folder at `cur`.
    pub open spec fn toggles(self, cur: int, dir: MoveSelection) -> bool {
        let kind = self.items@[cur].kind;
        ||| dir == MoveSelection::Left && kind == FileTreeItemKind::Path(false)
        ||| dir == MoveSelection::Right && kind == FileTreeItemKind::Path(true)
    }

    /// Whether a move changes anything.
    pub open spec fn moves(self, dir: MoveSelection) -> bool {
        match self.selection {
            Some(cur) => self.toggles(cur as int, dir) || self.target(cur as int, dir) != cur,
            None => false,
        }
    }

    /// An empty tree.
    pub fn new() -> (r: StatusTree)
        ensures
            r.wf(),
            r.items@.len() == 0,
            r.selection is None,
            r.files == 0,
            r.window_height is None,
    {
        StatusTree { items: Vec::new(), selection: None, files: 0, window_height: None }
    }

    fn all_collapsed(&self) -> (r: Vec<String>)
        ensures
            text::views(r@).to_set() == collapsed_paths(self.items@),
    {
        let mut out: Vec<String> = Vec::new();
        for i in 0..self.items.len()
            invariant
                forall|k: int|
                    0 <= k < out@.len() ==> collapsed_paths(self.items@).contains(
                        (#[trigger] out@[k])@,
                    ),
                forall|j: int|
                    0 <= j < i && (#[trigger] self.items@[j]).is_collapsed() ==> exists|k: int|
                        0 <= k < out@.len() && (#[trigger] out@[k])@ == self.items@[j].full_path@,
        {
            let is_collapsed = match self.items[i].kind {
                FileTreeItemKind::Path(c) => c,
                _ => false,
            };
            let ghost before = out@;
            if is_collapsed {
                assert(self.items@[i as int].is_collapsed());
                out.push(self.items[i].full_path.clone());
            }
            assert forall|j: int|
                0 <= j < i + 1 && (#[trigger] self.items@[j]).is_collapsed() implies exists|k: int|
                0 <= k < out@.len() && (#[trigger] out@[k])@ == self.items@[j].full_path@ by {
                if j < i {
                    let k = choose|k: int|
                        0 <= k < before.len() && (#[trigger] before[k])@
                            == self.items@[j].full_path@;
                    assert(out@[k] == before[k]);
                } else {
                    assert(out@[out@.len() - 1]@ == self.items@[j].full_path@);
                }
            }
        }
        proof {
            let listed = text::views(out@).to_set();
            let wanted = collapsed_paths(self.items@);
            assert forall|p: Seq<char>| listed.contains(p) == wanted.contains(p) by {
                if listed.contains(p) {
                    let k = choose|k: int|
                        0 <= k < text::views(out@).len() && text::views(out@)[k] == p;
                    assert(out@[k]@ == p);
                }
                if wanted.contains(p) {
                    let j = choose|j: int|
                        0 <= j < self.items@.len() && (#[trigger] self.items@[j]).is_collapsed()
                            && self.items@[j].full_path@ == p;
                    let k = choose|k: int|
                        0 <= k < out@.len() && (#[trigger] out@[k])@ == self.items@[j].full_path@;
                    assert(text::views(out@)[k] == p);
                }
            }
            assert(listed =~= wanted);
        }
        out
    }

    /// The first row with a path, or the number of rows.
    pub open spec fn row_of(items: Seq<FileTreeItem>, path: Seq<char>, i: int) -> int
        decreases items.len() - i,
    {
        if i >= items.len() {
            items.len() as int
        } else if items[i].full_path@ == path {
            i
        } else {
            StatusTree::row_of(items, path, i + 1)
        }
    }

    /// The row to select in new rows: the one that was selected, or else the
    /// one in its place; if that is hidden, the next visible one above.
    pub open spec fn kept_selection(self, items: Seq<FileTreeItem>) -> Option<usize> {
        if items.len() == 0 {
            None
        } else {
            let at = match self.selection {
                Some(cur) => {
                    let found = StatusTree::row_of(items, self.items@[cur as int].full_path@, 0);
                    if found < items.len() {
                        found
                    } else if cur < items.len() {
                        cur as int
                    } else {
                        items.len() - 1
                    }
                },
                None => 0,
            };
            Some(visible_up_to(items, at) as usize)
        }
    }

    fn find_row(items: &Vec<FileTreeItem>, path: &str) -> (r: usize)
        ensures
            r == StatusTree::row_of(items@, path@, 0),
            r <= items@.len(),
    {
        let mut i: usize = 0;
        while i < items.len()
            invariant
                i <= items@.len(),
                StatusTree::row_of(items@, path@, i as int) == StatusTree::row_of(
                    items@,
                    path@,
                    0,
                ),
            decreases items@.len() - i,
        {
            if text::same(items[i].full_path.as_str(), path) {
                return i;
            }
            i += 1;
        }
        i
    }

    fn find_visible_up_to(items: &Vec<FileTreeItem>, at: usize) -> (r: usize)
        requires
            at < items@.len(),
        ensures
            r == visible_up_to(items@, at as int),
            r <= at,
    {
        let mut i: usize = at;
        while i > 0 && !items[i].visible
            invariant
                i <= at < items@.len(),
                visible_up_to(items@, i as int) == visible_up_to(items@, at as int),
            decreases i,
        {
            i -= 1;
        }
        i
    }

    /// Show other files. Collapsed folders stay collapsed, and the selection
    /// stays on its file where that is still there.
    pub fn update(&mut self, list: &Vec<StatusItem>) -> (r: Result<(), TreeError>)
        requires
            old(self).wf(),
        ensures
            final(self).wf(),
            match r {
                Ok(_) => list_refusal(list@) is None && rows(final(self).items@) == built(
                    list@,
                    collapsed_paths(old(self).items@),
                    list@.len() as int,
                ) && final(self).selection == old(self).kept_selection(final(self).items@)
                    && final(self).files == list@.len() && final(self).window_height == old(
                    self,
                ).window_height,
                Err(error) => list_refusal(list@) == Some(error) && *final(self) == *old(self),
            },
    {
        let collapsed = self.all_collapsed();
        let mut items = match build_items(list, &collapsed) {
            Ok(items) => items,
            Err(e) => {
                return Err(e);
            },
        };
        let ghost raw = items@;
        update_visibility(&mut items);
        proof {
            assert(rows(items@) =~= rows(raw));
            lemma_visibility(raw, items@);
            lemma_built_named(list@, collapsed_paths(self.items@), list@.len() as int);
        }
        let selection: Option<usize> = if items.len() == 0 {
            None
        } else {
            let at: usize = match self.selection {
                Some(cur) => {
                    let found: usize = Self::find_row(
                        &items,
                        self.items[cur].full_path.as_str(),
                    );
                    if found < items.len() {
                        found
                    } else if cur < items.len() {
                        cur
                    } else {
                        items.len() - 1
                    }
                },
                None => 0,
            };
            Some(Self::find_visible_up_to(&items, at))
        };
        self.items = items;
        self.selection = selection;
        self.files = list.len();
        Ok(())
    }
}

proof fn lemma_visibility(raw: Seq<FileTreeItem>, items: Seq<FileTreeItem>)
    requires
        raw.len() == items.len(),
        forall|i: int|
            0 <= i < raw.len() ==> #[trigger] items[i] == (FileTreeItem {
                visible: !is_hidden(raw, i),
                ..raw[i]
            }),
    ensures
        visibility_holds(items),
{
    assert forall|i: int| 0 <= i < items.len() implies (#[trigger] items[i]).visible == !is_hidden(
        items,
        i,
    ) by {
        if is_hidden(raw, i) {
            let j = choose|j: int|
                0 <= j < raw.len() && (#[trigger] raw[j]).is_collapsed() && is_below(
                    raw[i].full_path@,
                    raw[j].full_path@,
                );
            assert(items[j].is_collapsed());
        }
        if is_hidden(items, i) {
            let j = choose|j: int|
                0 <= j < items.len() && (#[trigger] items[j]).is_collapsed() && is_below(
                    items[i].full_path@,
                    items[j].full_path@,
                );
            assert(raw[j].is_collapsed());
        }
    }
}

proof fn lemma_heads_ordered(items: Seq<FileTreeItem>, i: int)
    requires
        0 <= i <= items.len(),
    ensures
        forall|k: int|
            0 <= k < heads(items, i).len() ==> i <= #[trigger] heads(items, i)[k] < items.len(),
        forall|j: int, k: int|
            0 <= j < k < heads(items, i).len() ==> #[trigger] heads(items, i)[j]
                < #[trigger] heads(items, i)[k],
        i < items.len() ==> heads(items, i).len() > 0 && heads(items, i)[0] == i,
    decreases items.len() - i,
{
    if i < items.len() {
        lemma_chain_end(items, i);
        let next = chain_end(items, i) + 1;
        lemma_heads_ordered(items, next);
        let rest = heads(items, next);
        let all = heads(items, i);
        assert(all =~= seq![i] + rest);
        assert forall|k: int| 0 <= k < all.len() implies i <= #[trigger] all[k] < items.len() by {
            if k > 0 {
                assert(all[k] == rest[k - 1]);
            }
        }
        assert forall|j: int, k: int| 0 <= j < k < all.len() implies #[trigger] all[j]
            < #[trigger] all[k] by {
            assert(all[k] == rest[k - 1]);
            if j > 0 {
                assert(all[j] == rest[j - 1]);
            }
        }
    }
}

impl StatusTree {
    fn find_head_position(tops: &Vec<usize>, cur: usize) -> (r: usize)
        requires
            tops@.len() > 0,
        ensures
            r == head_position(
                Seq::new(tops@.len(), |k: int| tops@[k] as int),
                cur as int,
                tops@.len() as int,
            ),
            r < tops@.len(),
    {
        let ghost all = Seq::new(tops@.len(), |k: int| tops@[k] as int);
        let mut n: usize = tops.len();
        while n > 1 && tops[n - 1] > cur
            invariant
                1 <= n <= tops@.len(),
                all == Seq::new(tops@.len(), |k: int| tops@[k] as int),
                head_position(all, cur as int, n as int) == head_position(
                    all,
                    cur as int,
                    tops@.len() as int,
                ),
            decreases n,
        {
            n -= 1;
        }
        n - 1
    }

    fn find_above(&self, tops: &Vec<usize>, at: usize) -> (r: usize)
        requires
            at < tops@.len(),
            forall|k: int| 0 <= k < tops@.len() ==> #[trigger] tops@[k] < self.items@.len(),
        ensures
            r == head_above(
                self.items@,
                Seq::new(tops@.len(), |k: int| tops@[k] as int),
                at as int,
            ),
            r < self.items@.len(),
    {
        let ghost all = Seq::new(tops@.len(), |k: int| tops@[k] as int);
        let mut p: usize = at;
        while p > 1 && !self.items[tops[p - 1]].visible
            invariant
                p <= at < tops@.len(),
                all == Seq::new(tops@.len(), |k: int| tops@[k] as int),
                forall|k: int| 0 <= k < tops@.len() ==> #[trigger] tops@[k] < self.items@.len(),
                head_above(self.items@, all, p as int) == head_above(self.items@, all, at as int),
            decreases p,
        {
            p -= 1;
        }
        if p == 0 {
            tops[0]
        } else {
            tops[p - 1]
        }
    }

    fn find_below(&self, tops: &Vec<usize>, at: usize, cur: usize) -> (r: usize)
        requires
            at < tops@.len(),
            cur < self.items@.len(),
            forall|k: int| 0 <= k < tops@.len() ==> #[trigger] tops@[k] < self.items@.len(),
        ensures
            r == head_below(
                self.items@,
                Seq::new(tops@.len(), |k: int| tops@[k] as int),
                at as int,
                cur as int,
            ),
            r < self.items@.len(),
    {
        let ghost all = Seq::new(tops@.len(), |k: int| tops@[k] as int);
        let len: usize = tops.len();
        let mut p: usize = at + 1;
        while p < len
            invariant
                len == tops@.len(),
                1 <= p <= tops@.len(),
                all == Seq::new(tops@.len(), |k: int| tops@[k] as int),
                forall|k: int| 0 <= k < tops@.len() ==> #[trigger] tops@[k] < self.items@.len(),
                head_below(self.items@, all, p - 1, cur as int) == head_below(
                    self.items@,
                    all,
                    at as int,
                    cur as int,
                ),
            decreases tops@.len() - p,
        {
            if self.items[tops[p]].visible {
                return tops[p];
            }
            p += 1;
        }
        cur
    }

    fn find_parent(&self, cur: usize) -> (r: usize)
        requires
            cur < self.items@.len(),
        ensures
            r == parent_up_to(self.items@, cur as int, cur as int),
            r <= cur,
    {
        let mut i: usize = cur;
        while i > 0 && self.items[i].indent >= self.items[cur].indent
            invariant
                i <= cur < self.items@.len(),
                parent_up_to(self.items@, cur as int, i as int) == parent_up_to(
                    self.items@,
                    cur as int,
                    cur as int,
                ),
            decreases i,
        {
            i -= 1;
        }
        i
    }

    fn is_head(tops: &Vec<usize>, i: usize) -> (r: bool)
        ensures
            r == Seq::new(tops@.len(), |k: int| tops@[k] as int).contains(i as int),
    {
        let ghost all = Seq::new(tops@.len(), |k: int| tops@[k] as int);
        for k in 0..tops.len()
            invariant
                all == Seq::new(tops@.len(), |k: int| tops@[k] as int),
                forall|j: int| 0 <= j < k ==> #[trigger] all[j] != i,
        {
            if tops[k] == i {
                assert(all[k as int] == i);
                return true;
            }
        }
        false
    }

    fn find_page_up(&self, tops: &Vec<usize>, cur: usize, page: usize) -> (r: usize)
        requires
            cur < self.items@.len(),
        ensures
            r == page_up(
                self.items@,
                Seq::new(tops@.len(), |k: int| tops@[k] as int),
                cur as int,
                page as int,
                cur as int,
            ),
            r < self.items@.len(),
    {
        let ghost all = Seq::new(tops@.len(), |k: int| tops@[k] as int);
        let ghost goal = page_up(self.items@, all, cur as int, page as int, cur as int);
        let mut best: usize = cur;
        let mut left: usize = page;
        let len: usize = self.items.len();
        assert(cur < len);
        // rows up to before `n` are still to be looked at
        let mut n: usize = cur + 1;
        while n > 0 && left > 0
            invariant
                n <= self.items@.len(),
                best < self.items@.len(),
                all == Seq::new(tops@.len(), |k: int| tops@[k] as int),
                page_up(self.items@, all, n - 1, left as int, best as int) == goal,
            decreases n,
        {
            n -= 1;
            if self.items[n].visible && Self::is_head(tops, n) {
                best = n;
                left -= 1;
            }
        }
        best
    }

    fn find_page_down(&self, tops: &Vec<usize>, cur: usize, page: usize) -> (r: usize)
        requires
            cur < self.items@.len(),
        ensures
            r == page_down(
                self.items@,
                Seq::new(tops@.len(), |k: int| tops@[k] as int),
                cur as int,
                page as int,
                cur as int,
            ),
            r < self.items@.len(),
    {
        let ghost all = Seq::new(tops@.len(), |k: int| tops@[k] as int);
        let ghost goal = page_down(self.items@, all, cur as int, page as int, cur as int);
        let mut best: usize = cur;
        let mut left: usize = page;
        let mut i: usize = cur;
        while i < self.items.len() && left > 0
            invariant
                i <= self.items@.len(),
                best < self.items@.len(),
                all == Seq::new(tops@.len(), |k: int| tops@[k] as int),
                page_down(self.items@, all, i as int, left as int, best as int) == goal,
            decreases self.items@.len() - i,
        {
            if self.items[i].visible && Self::is_head(tops, i) {
                best = i;
                left -= 1;
            }
            i += 1;
        }
        best
    }

    fn find_target(&self, cur: usize, dir: MoveSelection) -> (r: usize)
        requires
            cur < self.items@.len(),
        ensures
            r == self.target(cur as int, dir),
            r < self.items@.len(),
    {
        proof {
            lemma_heads_ordered(self.items@, 0);
        }
        let tops = find_heads(&self.items);
        assert(Seq::new(tops@.len(), |k: int| tops@[k] as int) =~= heads(self.items@, 0));
        let at: usize = Self::find_head_position(&tops, cur);
        let page: usize = match self.window_height {
            Some(h) => h,
            None => 0,
        };
        match dir {
            MoveSelection::Up => self.find_above(&tops, at),
            MoveSelection::Down => self.find_below(&tops, at, cur),
            MoveSelection::Left => self.find_parent(cur),
            MoveSelection::Right => match self.items[cur].kind {
                FileTreeItemKind::Path(_) => self.find_below(&tops, at, cur),
                FileTreeItemKind::File(_) => cur,
            },
            MoveSelection::Home => 0,
            MoveSelection::End => Self::find_visible_up_to(&self.items, self.items.len() - 1),
            MoveSelection::PageUp => self.find_page_up(&tops, cur, page),
            MoveSelection::PageDown => self.find_page_down(&tops, cur, page),
        }
    }

    fn set_collapsed(&mut self, cur: usize, collapsed: bool)
        requires
            old(self).wf(),
            cur < old(self).items@.len(),
            old(self).items@[cur as int].is_folder(),
        ensures
            final(self).wf(),
            rows(final(self).items@) == rows(old(self).items@).update(
                cur as int,
                (RowView {
                    kind: FileTreeItemKind::Path(collapsed),
                    ..rows(old(self).items@)[cur as int]
                }),
            ),
            final(self).selection == old(self).selection,
            final(self).files == old(self).files,
            final(self).window_height == old(self).window_height,
    {
        let mut item = self.items[cur].clone();
        item.kind = FileTreeItemKind::Path(collapsed);
        self.items.set(cur, item);
        let ghost raw = self.items@;
        update_visibility(&mut self.items);
        proof {
            lemma_visibility(raw, self.items@);
            assert(rows(self.items@) =~= rows(old(self).items@).update(
                cur as int,
                RowView {
                    kind: FileTreeItemKind::Path(collapsed),
                    ..rows(old(self).items@)[cur as int]
                },
            ));
        }
    }

    /// Move the selection: over folded folders as one row, and past what is
    /// hidden. To the left a folder is collapsed, or else its parent selected;
    /// to the right it is expanded, or else entered.
    pub fn move_selection(&mut self, dir: MoveSelection) -> (changed: bool)
        requires
            old(self).wf(),
        ensures
            final(self).wf(),
            changed == old(self).moves(dir),
            final(self).files == old(self).files,
            final(self).window_height == old(self).window_height,
            match old(self).selection {
                Some(cur) => if old(self).toggles(cur as int, dir) {
                    final(self).selection == Some(cur) && rows(final(self).items@) == rows(
                        old(self).items@,
                    ).update(
                        cur as int,
                        (RowView {
                            kind: FileTreeItemKind::Path(dir == MoveSelection::Left),
                            ..rows(old(self).items@)[cur as int]
                        }),
                    )
                } else {
                    final(self).selection == Some(old(self).target(cur as int, dir) as usize)
                        && final(self).items == old(self).items
                },
                None => *final(self) == *old(self),
            },
    {
        let cur: usize = match self.selection {
            Some(i) => i,
            None => {
                return false;
            },
        };
        let toggles = match self.items[cur].kind {
            FileTreeItemKind::Path(collapsed) => (dir == MoveSelection::Left && !collapsed) || (
            dir == MoveSelection::Right && collapsed),
            FileTreeItemKind::File(_) => false,
        };
        if toggles {
            self.set_collapsed(cur, dir == MoveSelection::Left);
            return true;
        }
        let target: usize = self.find_target(cur, dir);
        self.selection = Some(target);
        target != cur
    }

    /// The selected row.
    pub open spec fn selected(self) -> Option<FileTreeItem> {
        match self.selection {
            Some(i) => Some(self.items@[i as int]),
            None => None,
        }
    }

    /// The selected row.
    pub fn selected_item(&self) -> (r: Option<FileTreeItem>)
        requires
            self.wf(),
        ensures
            r == self.selected(),
    {
        match self.selection {
            Some(i) => Some(self.items[i].clone()),
            None => None,
        }
    }

    /// Whether there are no rows.
    pub fn is_empty(&self) -> (r: bool)
        ensures
            r == (self.items@.len() == 0),
    {
        self.items.len() == 0
    }
}

// --------------------------------------------------------------------- laws

/// Collapsing a folder and expanding it again leaves the rows as they were.
pub proof fn lemma_collapse_and_expand(all: Seq<RowView>, cur: int)
    requires
        0 <= cur < all.len(),
        all[cur].kind == FileTreeItemKind::Path(false),
    ensures
        all.update(cur, RowView { kind: FileTreeItemKind::Path(true), ..all[cur] }).update(
            cur,
            RowView {
                kind: FileTreeItemKind::Path(false),
                ..all.update(cur, RowView { kind: FileTreeItemKind::Path(true), ..all[cur] })[cur]
            },
        ) == all,
{
    let once = all.update(cur, RowView { kind: FileTreeItemKind::Path(true), ..all[cur] });
    assert(once.update(cur, RowView { kind: FileTreeItemKind::Path(false), ..once[cur] }) =~= all);
}

/// What is drawn is visible, and stands in the order of the tree.
pub proof fn lemma_drawn_rows_are_visible(items: Seq<FileTreeItem>, i: int, j: int)
    requires
        0 <= i < j < all_drawn(items).len(),
    ensures
        all_drawn(items)[i].visible,
        all_drawn(items)[j].visible,
        all_drawn(items)[i].source < all_drawn(items)[j].source,
{
    lemma_heads_ordered(items, 0);
    lemma_drawn_prefix(items, heads(items, 0), heads(items, 0).len() as int);
}

proof fn lemma_drawn_are_items(items: Seq<FileTreeItem>, tops: Seq<int>, n: int)
    requires
        0 <= n <= tops.len(),
        forall|k: int| 0 <= k < tops.len() ==> 0 <= #[trigger] tops[k] < items.len(),
    ensures
        forall|i: int|
            0 <= i < drawn_rows(items, tops, n).len() ==> ({
                let row = #[trigger] drawn_rows(items, tops, n)[i];
                0 <= row.source < items.len() && row.kind == items[row.source].kind
            }),
    decreases n,
{
    if n > 0 {
        lemma_drawn_are_items(items, tops, n - 1);
        let before = drawn_rows(items, tops, n - 1);
        let after = drawn_rows(items, tops, n);
        assert forall|i: int| 0 <= i < after.len() implies ({
            let row = #[trigger] after[i];
            0 <= row.source < items.len() && row.kind == items[row.source].kind
        }) by {
            if i < before.len() {
                assert(after[i] == before[i]);
            }
        }
    }
}

/// A file that is drawn has a name.
pub proof fn lemma_drawn_named(items: Seq<FileTreeItem>, i: int)
    requires
        are_named(rows(items)),
        0 <= i < all_drawn(items).len(),
    ensures
        all_drawn(items)[i].kind matches FileTreeItemKind::File(item) ==> paths::name_of(
            item.path@,
        ) is Some,
{
    lemma_heads_ordered(items, 0);
    lemma_drawn_are_items(items, heads(items, 0), heads(items, 0).len() as int);
    let row = all_drawn(items)[i];
    assert(rows(items)[row.source].kind == row.kind);
}

proof fn lemma_drawn_prefix(items: Seq<FileTreeItem>, tops: Seq<int>, n: int)
    requires
        0 <= n <= tops.len(),
        forall|j: int, k: int| 0 <= j < k < tops.len() ==> #[trigger] tops[j] < #[trigger] tops[k],
    ensures
        forall|i: int|
            0 <= i < drawn_rows(items, tops, n).len() ==> (#[trigger] drawn_rows(
                items,
                tops,
                n,
            )[i]).visible && exists|k: int|
                0 <= k < n && drawn_rows(items, tops, n)[i].source == #[trigger] tops[k],
        forall|i: int, j: int|
            0 <= i < j < drawn_rows(items, tops, n).len() ==> (#[trigger] drawn_rows(
                items,
                tops,
                n,
            )[i]).source < (#[trigger] drawn_rows(items, tops, n)[j]).source,
    decreases n,
{
    if n > 0 {
        lemma_drawn_prefix(items, tops, n - 1);
        let before = drawn_rows(items, tops, n - 1);
        let after = drawn_rows(items, tops, n);
        assert forall|i: int| 0 <= i < after.len() implies (#[trigger] after[i]).visible
            && exists|k: int| 0 <= k < n && after[i].source == #[trigger] tops[k] by {
            if i < before.len() {
                assert(after[i] == before[i]);
                let k = choose|k: int| 0 <= k < n - 1 && before[i].source == #[trigger] tops[k];
                assert(after[i].source == tops[k]);
            } else {
                assert(after[i].source == tops[n - 1]);
            }
        }
        assert forall|i: int, j: int| 0 <= i < j < after.len() implies (
        #[trigger] after[i]).source < (#[trigger] after[j]).source by {
            if j < before.len() {
                assert(after[i] == before[i] && after[j] == before[j]);
            } else {
                assert(after[i] == before[i]);
                let k = choose|k: int| 0 <= k < n - 1 && before[i].source == #[trigger] tops[k];
                assert(tops[k] < tops[n - 1]);
            }
        }
    }
}

proof fn lemma_separators_add(a: Seq<char>, b: Seq<char>)
    ensures
        separators(a + b) == separators(a) + separators(b),
    decreases b.len(),
{
    if b.len() == 0 {
        assert(a + b =~= a);
    } else {
        assert((a + b).drop_last() =~= a + b.drop_last());
        lemma_separators_add(a, b.drop_last());
    }
}

proof fn lemma_no_separators(s: Seq<char>)
    requires
        forall|i: int| 0 <= i < s.len() ==> #[trigger] s[i] != '/',
    ensures
        separators(s) == 0,
        name_of(s) == s,
    decreases s.len(),
{
    if s.len() == 0 {
        assert(s =~= Seq::empty());
    } else {
        lemma_no_separators(s.drop_last());
        assert(s.drop_last().push(s.last()) =~= s);
    }
}

/// What lies in a folder stands one level below it, under the name behind the last
/// separator; what lies in none stands on the first level.
pub proof fn lemma_levels(folder: Seq<char>, name: Seq<char>, collapsed: bool)
    requires
        name.len() > 0,
        forall|i: int| 0 <= i < name.len() ==> #[trigger] name[i] != '/',
    ensures
        ({
            let path = folder + seq!['/'] + name;
            &&& folder_row(path, collapsed).indent == folder_row(folder, collapsed).indent + 1
            &&& folder_row(path, collapsed).name == name
            &&& folder_row(path, collapsed).full_path == path
            &&& folder_row(path, collapsed).kind == FileTreeItemKind::Path(collapsed)
            &&& folder_row(name, collapsed).indent == 0
            &&& folder_row(name, collapsed).name == name
            &&& bare(path) == path
            &&& bare(path + seq!['/']) == path
        }),
{
    let path = folder + seq!['/'] + name;
    lemma_no_separators(name);
    lemma_separators_add(folder + seq!['/'], name);
    lemma_separators_add(folder, seq!['/']);
    assert(seq!['/'].drop_last() =~= Seq::<char>::empty());
    reveal_with_fuel(separators, 3);
    lemma_name_of(path, folder.len() as int + 1);
    assert(path.subrange(folder.len() as int + 1, path.len() as int) =~= name);
    assert(path.last() == name.last());
    assert(path + seq!['/'] =~= path.push('/'));
    assert(path.push('/').drop_last() =~= path);
    reveal_with_fuel(bare, 3);
}

/// A file stands on the level of its path, and holds what happened to it.
pub proof fn lemma_file_levels(item: StatusItem, folder: Seq<char>, name: Seq<char>)
    requires
        name.len() > 0,
        forall|i: int| 0 <= i < name.len() ==> #[trigger] name[i] != '/',
    ensures
        item.path@ == folder + seq!['/'] + name ==> file_row(item).indent == folder_row(
            folder,
            false,
        ).indent + 1,
        item.path@ == name ==> file_row(item).indent == 0,
        file_row(item).kind == FileTreeItemKind::File(item),
        file_row(item).full_path == item.path@,
{
    lemma_levels(folder, name, false);
    reveal_with_fuel(bare, 2);
}

proof fn lemma_with_folders(
    all: Seq<RowView>,
    path: Seq<char>,
    collapsed: Set<Seq<char>>,
    n: int,
)
    requires
        0 <= n <= path.len(),
    ensures
        ({
            let after = with_folders(all, path, collapsed, n);
            &&& all.len() <= after.len()
            &&& after.take(all.len() as int) == all
            &&& forall|k: int|
                all.len() <= k < after.len() ==> (#[trigger] after[k]).kind
                    == FileTreeItemKind::Path(collapsed.contains(after[k].full_path)) && is_below(
                    path,
                    after[k].full_path,
                )
            &&& forall|k: int|
                1 <= k < n && #[trigger] path[k] == '/' ==> has_folder(after, path.take(k))
        }),
    decreases n,
{
    if n <= 1 {
        assert(all.take(all.len() as int) =~= all);
    } else {
        lemma_with_folders(all, path, collapsed, n - 1);
        let before = with_folders(all, path, collapsed, n - 1);
        let after = with_folders(all, path, collapsed, n);
        let folder = path.take(n - 1);
        assert(after.take(all.len() as int) =~= before.take(all.len() as int));
        assert(path.take(folder.len() as int) =~= folder);
        assert forall|f: Seq<char>| has_folder(before, f) implies #[trigger] has_folder(
            after,
            f,
        ) by {
            let i = choose|i: int|
                0 <= i < before.len() && (#[trigger] before[i]).kind is Path && before[i].full_path
                    == f;
            assert(after[i] == before[i]);
        }
        if path[n - 1] == '/' {
            if !has_folder(before, folder) {
                let last = after.len() - 1;
                assert(after[last].full_path == folder && after[last].kind is Path);
            }
            assert(has_folder(after, folder));
        }
        assert forall|k: int| 1 <= k < n && #[trigger] path[k] == '/' implies has_folder(
            after,
            path.take(k),
        ) by {
            if k < n - 1 {
                assert(has_folder(before, path.take(k)));
            }
        }
    }
}

/// A further file leaves the rows before it as they are. Its own row comes last, and
/// between them come only folders on the way to it: those that were not there yet,
/// collapsed if they were before. All folders on the way are there then.
pub proof fn lemma_files_are_added(
    list: Seq<StatusItem>,
    item: StatusItem,
    collapsed: Set<Seq<char>>,
    k: int,
)
    ensures
        ({
            let before = built(list, collapsed, list.len() as int);
            let after = built(list.push(item), collapsed, list.len() as int + 1);
            let path = bare(item.path@);
            &&& before.len() < after.len()
            &&& after.take(before.len() as int) == before
            &&& after.last().kind == FileTreeItemKind::File(item)
            &&& after.last().full_path == item.path@
            &&& before.len() <= k < after.len() - 1 ==> after[k].kind == FileTreeItemKind::Path(
                collapsed.contains(after[k].full_path),
            ) && is_below(path, after[k].full_path)
            &&& 1 <= k < path.len() && path[k] == '/' ==> has_folder(after, path.take(k))
        }),
{
    let n = list.len() as int;
    let path = bare(item.path@);
    let before = built(list, collapsed, n);
    let after = built(list.push(item), collapsed, n + 1);
    lemma_built_prefix(list, item, collapsed, n);
    lemma_with_folders(before, path, collapsed, path.len() as int);
    let mid = with_folders(before, path, collapsed, path.len() as int);
    assert(after == mid.push(file_row(item)));
    assert(after.take(before.len() as int) =~= mid.take(before.len() as int));
    if 1 <= k < path.len() && path[k] == '/' {
        let f = path.take(k);
        assert(has_folder(mid, f));
        let i = choose|i: int|
            0 <= i < mid.len() && (#[trigger] mid[i]).kind is Path && mid[i].full_path == f;
        assert(after[i] == mid[i]);
    }
}

proof fn lemma_built_prefix(
    list: Seq<StatusItem>,
    item: StatusItem,
    collapsed: Set<Seq<char>>,
    n: int,
)
    requires
        n <= list.len(),
    ensures
        built(list.push(item), collapsed, n) == built(list, collapsed, n),
    decreases n,
{
    if n > 0 {
        lemma_built_prefix(list, item, collapsed, n - 1);
        assert(list.push(item)[n - 1] == list[n - 1]);
    }
}

spec fn folders_differ(all: Seq<RowView>) -> bool {
    forall|i: int, j: int|
        0 <= i < j < all.len() && (#[trigger] all[i]).kind is Path && (#[trigger] all[j]).kind
            is Path ==> all[i].full_path != all[j].full_path
}

proof fn lemma_folders_differ(
    all: Seq<RowView>,
    path: Seq<char>,
    collapsed: Set<Seq<char>>,
    n: int,
)
    requires
        folders_differ(all),
    ensures
        folders_differ(with_folders(all, path, collapsed, n)),
    decreases n,
{
    if n > 1 {
        lemma_folders_differ(all, path, collapsed, n - 1);
    }
}

/// No folder stands in the tree twice.
pub proof fn lemma_folders_stand_once(
    list: Seq<StatusItem>,
    collapsed: Set<Seq<char>>,
    n: int,
    i: int,
    j: int,
)
    requires
        0 <= n <= list.len(),
        0 <= i < j < built(list, collapsed, n).len(),
        built(list, collapsed, n)[i].kind is Path,
        built(list, collapsed, n)[j].kind is Path,
    ensures
        built(list, collapsed, n)[i].full_path != built(list, collapsed, n)[j].full_path,
{
    lemma_all_folders_differ(list, collapsed, n);
}

proof fn lemma_all_folders_differ(list: Seq<StatusItem>, collapsed: Set<Seq<char>>, n: int)
    ensures
        folders_differ(built(list, collapsed, n)),
    decreases n,
{
    if n > 0 {
        lemma_all_folders_differ(list, collapsed, n - 1);
        let path = bare(list[n - 1].path@);
        lemma_folders_differ(built(list, collapsed, n - 1), path, collapsed, path.len() as int);
    }
}

/// What is in a folder lies below it, at any depth; what only starts with the same
/// letters does not, nor does the folder itself.
pub proof fn lemma_what_lies_below(folder: Seq<char>, rest: Seq<char>, c: char)
    requires
        c != '/',
    ensures
        is_below(folder + seq!['/'] + rest, folder),
        !is_below(folder + seq![c] + rest, folder),
        !is_below(folder, folder),
{
    let inside = folder + seq!['/'] + rest;
    assert(inside.take(folder.len() as int) =~= folder);
    assert(inside[folder.len() as int] == '/');
    assert((folder + seq![c] + rest)[folder.len() as int] == c);
}

proof fn lemma_row_of(items: Seq<FileTreeItem>, path: Seq<char>, i: int)
    requires
        0 <= i <= items.len(),
    ensures
        i <= StatusTree::row_of(items, path, i) <= items.len(),
        StatusTree::row_of(items, path, i) < items.len() ==> items[StatusTree::row_of(
            items,
            path,
            i,
        )].full_path@ == path,
        forall|k: int|
            i <= k < StatusTree::row_of(items, path, i) ==> (#[trigger] items[k]).full_path@
                != path,
    decreases items.len() - i,
{
    if i < items.len() && items[i].full_path@ != path {
        lemma_row_of(items, path, i + 1);
    }
}

proof fn lemma_visible_up_to(items: Seq<FileTreeItem>, i: int)
    requires
        0 <= i < items.len(),
    ensures
        0 <= visible_up_to(items, i) <= i,
        visible_up_to(items, i) > 0 ==> items[visible_up_to(items, i)].visible,
        forall|k: int| visible_up_to(items, i) < k <= i ==> !(#[trigger] items[k]).visible,
    decreases i,
{
    if i > 0 && !items[i].visible {
        lemma_visible_up_to(items, i - 1);
    }
}

/// When the files change, the selection stays on its file where that is still there
/// and visible, and something is selected as long as there are files.
pub proof fn lemma_the_selection_stays_on_its_file(
    tree: StatusTree,
    items: Seq<FileTreeItem>,
    cur: usize,
    k: int,
)
    requires
        tree.selection == Some(cur),
        cur < tree.items@.len(),
        0 <= k < items.len() <= usize::MAX,
        items[k].full_path@ == tree.items@[cur as int].full_path@,
        items[k].visible,
        forall|j: int| 0 <= j < k ==> (#[trigger] items[j]).full_path@ != items[k].full_path@,
    ensures
        tree.kept_selection(items) == Some(k as usize),
{
    lemma_row_of(items, tree.items@[cur as int].full_path@, 0);
    let found = StatusTree::row_of(items, tree.items@[cur as int].full_path@, 0);
    assert(found == k);
}

/// A selection is kept within the tree: near where it was, on a row that is visible
/// or the first one, and on none only if there is none.
pub proof fn lemma_something_stays_selected(tree: StatusTree, items: Seq<FileTreeItem>)
    requires
        items.len() <= usize::MAX,
    ensures
        items.len() == 0 ==> tree.kept_selection(items) is None,
        items.len() > 0 ==> (tree.kept_selection(items) matches Some(at) && at < items.len() && (
        items[at as int].visible || at == 0)),
{
    if items.len() > 0 {
        let at = match tree.selection {
            Some(cur) => {
                let path = tree.items@[cur as int].full_path@;
                lemma_row_of(items, path, 0);
                let found = StatusTree::row_of(items, path, 0);
                if found < items.len() {
                    found
                } else if cur < items.len() {
                    cur as int
                } else {
                    items.len() - 1
                }
            },
            None => 0,
        };
        lemma_visible_up_to(items, at);
    }
}

proof fn lemma_parent_up_to(items: Seq<FileTreeItem>, cur: int, i: int)
    requires
        0 <= i <= cur < items.len(),
    ensures
        0 <= parent_up_to(items, cur, i) <= i,
        parent_up_to(items, cur, i) > 0 ==> items[parent_up_to(items, cur, i)].indent
            < items[cur].indent,
        forall|k: int|
            parent_up_to(items, cur, i) < k <= i ==> (#[trigger] items[k]).indent
                >= items[cur].indent,
    decreases i,
{
    if i > 0 && items[i].indent >= items[cur].indent {
        lemma_parent_up_to(items, cur, i - 1);
    }
}

/// To the left, past folders that are open, the parent is selected: the next row
/// above on a lower level, or the first row.
pub proof fn lemma_left_leads_to_the_parent(tree: StatusTree, cur: int)
    requires
        0 <= cur < tree.items@.len(),
    ensures
        ({
            let items = tree.items@;
            let at = tree.target(cur, MoveSelection::Left);
            &&& 0 <= at <= cur
            &&& at > 0 ==> items[at].indent < items[cur].indent
            &&& forall|k: int| at < k <= cur ==> (#[trigger] items[k]).indent >= items[cur].indent
        }),
        tree.target(cur, MoveSelection::Home) == 0,
        tree.toggles(cur, MoveSelection::Left) <==> tree.items@[cur].kind
            == FileTreeItemKind::Path(false),
        tree.toggles(cur, MoveSelection::Right) <==> tree.items@[cur].kind
            == FileTreeItemKind::Path(true),
        !tree.toggles(cur, MoveSelection::Up) && !tree.toggles(cur, MoveSelection::Down)
            && !tree.toggles(cur, MoveSelection::Home) && !tree.toggles(cur, MoveSelection::End),
{
    lemma_parent_up_to(tree.items@, cur, cur);
}

/// The end is the last visible row.
pub proof fn lemma_the_end_is_the_last_visible_row(tree: StatusTree, cur: int)
    requires
        0 < tree.items@.len(),
    ensures
        ({
            let items = tree.items@;
            let at = tree.target(cur, MoveSelection::End);
            &&& 0 <= at < items.len()
            &&& at > 0 ==> items[at].visible
            &&& forall|k: int| at < k < items.len() ==> !(#[trigger] items[k]).visible
        }),
{
    lemma_visible_up_to(tree.items@, tree.items@.len() - 1);
}

proof fn lemma_head_below(items: Seq<FileTreeItem>, tops: Seq<int>, p: int, cur: int)
    requires
        0 <= p < tops.len(),
    ensures
        head_below(items, tops, p, cur) == cur || exists|q: int|
            p < q < tops.len() && #[trigger] tops[q] == head_below(items, tops, p, cur)
                && items[tops[q]].visible && forall|r: int|
                p < r < q ==> !items[#[trigger] tops[r]].visible,
        (exists|q: int| p < q < tops.len() && items[#[trigger] tops[q]].visible) ==> exists|q: int|
            p < q < tops.len() && #[trigger] tops[q] == head_below(items, tops, p, cur)
                && items[tops[q]].visible,
    decreases tops.len() - p,
{
    if p + 1 < tops.len() {
        if items[tops[p + 1]].visible {
            assert(tops[p + 1] == head_below(items, tops, p, cur));
        } else {
            lemma_head_below(items, tops, p + 1, cur);
        }
    }
}

proof fn lemma_head_position(tops: Seq<int>, cur: int, n: int)
    requires
        0 < n <= tops.len(),
        forall|j: int, k: int| 0 <= j < k < tops.len() ==> #[trigger] tops[j] < #[trigger] tops[k],
        tops[0] <= cur,
    ensures
        0 <= head_position(tops, cur, n) < n,
        tops[head_position(tops, cur, n)] <= cur,
        forall|k: int| head_position(tops, cur, n) < k < n ==> #[trigger] tops[k] > cur,
    decreases n,
{
    if n > 1 && tops[n - 1] > cur {
        lemma_head_position(tops, cur, n - 1);
    }
}

/// Down leads to the next row that is drawn, and nowhere only if there is none:
/// rows that are hidden, or drawn together with the one above, are passed over.
pub proof fn lemma_down_leads_to_the_next_drawn_row(tree: StatusTree, cur: int)
    requires
        0 <= cur < tree.items@.len(),
    ensures
        ({
            let items = tree.items@;
            let tops = heads(items, 0);
            let at = tree.target(cur, MoveSelection::Down);
            &&& at == cur || (at > cur && items[at].visible && tops.contains(at))
            &&& forall|k: int|
                0 <= k < tops.len() && cur < #[trigger] tops[k] && items[tops[k]].visible ==> cur
                    < at <= tops[k]
        }),
{
    let items = tree.items@;
    let tops = heads(items, 0);
    lemma_heads_ordered(items, 0);
    let p = head_position(tops, cur, tops.len() as int);
    lemma_head_position(tops, cur, tops.len() as int);
    lemma_head_below(items, tops, p, cur);
    let at = tree.target(cur, MoveSelection::Down);
    if at != cur {
        let q = choose|q: int|
            p < q < tops.len() && #[trigger] tops[q] == at && items[tops[q]].visible && forall|
                r: int,
            |
                p < r < q ==> !items[#[trigger] tops[r]].visible;
        assert(tops[q] > cur);
    }
    assert forall|k: int|
        0 <= k < tops.len() && cur < #[trigger] tops[k] && items[tops[k]].visible implies cur < at
        <= tops[k] by {
        if k <= p {
            assert(k == p || tops[k] < tops[p]);
        }
        assert(items[tops[k]].visible);
        assert(exists|q: int| p < q < tops.len() && items[#[trigger] tops[q]].visible);
        let q = choose|q: int|
            p < q < tops.len() && #[trigger] tops[q] == at && items[tops[q]].visible;
        assert(tops[q] > cur);
        if at > tops[k] {
            let m = choose|q: int|
                p < q < tops.len() && #[trigger] tops[q] == at && items[tops[q]].visible && forall|
                    r: int,
                |
                    p < r < q ==> !items[#[trigger] tops[r]].visible;
            assert(tops[m] == at);
            if m <= k {
                assert(m == k || tops[m] < tops[k]);
            }
            assert(!items[tops[k]].visible);
        }
    }
}

/// A list is refused for the first of its files that cannot stand in a tree: one
/// that lies too deep, or has no name.
pub proof fn lemma_lists_without_such_files_are_taken(list: Seq<StatusItem>, n: int)
    requires
        0 <= n <= list.len(),
    ensures
        refusal_among(list, n) is None <==> forall|i: int|
            0 <= i < n ==> separators(bare((#[trigger] list[i]).path@)) <= 255 && paths::name_of(
                list[i].path@,
            ) is Some,
    decreases n,
{
    if n > 0 {
        lemma_lists_without_such_files_are_taken(list, n - 1);
        if refusal_among(list, n) is None {
            assert(refusal(list[n - 1]) is None);
        }
    }
}

/// How many visible heads lie from one row up to another.
pub open spec fn heads_between(
    items: Seq<FileTreeItem>,
    tops: Seq<int>,
    i: int,
    j: int,
) -> int
    decreases j - i,
{
    if i >= j {
        0
    } else {
        heads_between(items, tops, i + 1, j) + if tops.contains(i) && items[i].visible {
            1int
        } else {
            0int
        }
    }
}

proof fn lemma_heads_are_counted(
    items: Seq<FileTreeItem>,
    tops: Seq<int>,
    i: int,
    k: int,
    j: int,
)
    requires
        i <= k <= j,
    ensures
        heads_between(items, tops, i, j) == heads_between(items, tops, i, k) + heads_between(
            items,
            tops,
            k,
            j,
        ),
        0 <= heads_between(items, tops, i, k),
        0 <= heads_between(items, tops, k, j),
    decreases k - i, j - i,
{
    if i < k {
        lemma_heads_are_counted(items, tops, i + 1, k, j);
    } else if k < j {
        lemma_heads_are_counted(items, tops, k + 1, k + 1, j);
    }
}

/// A page downwards passes as many drawn rows as it is long, where there are so
/// many, and ends on the last of them; else it ends on the last of all.
pub proof fn lemma_pages_downwards(
    items: Seq<FileTreeItem>,
    tops: Seq<int>,
    i: int,
    left: int,
    best: int,
)
    requires
        0 <= i <= items.len(),
        0 <= left,
        0 <= best < i,
    ensures
        ({
            let r = page_down(items, tops, i, left, best);
            let all = heads_between(items, tops, i, items.len() as int);
            &&& best <= r < items.len() || r == best
            &&& r != best ==> i <= r && tops.contains(r) && items[r].visible
            &&& r != best ==> heads_between(items, tops, i, r + 1) == if all < left {
                all
            } else {
                left
            }
            &&& r == best ==> left == 0 || all == 0
        }),
    decreases items.len() - i,
{
    lemma_heads_are_counted(items, tops, i, i, items.len() as int);
    if i < items.len() && left > 0 {
        lemma_heads_are_counted(items, tops, i + 1, i + 1, items.len() as int);
        if tops.contains(i) && items[i].visible {
            lemma_pages_downwards(items, tops, i + 1, left - 1, i);
            let r = page_down(items, tops, i, left, best);
            if r == i {
                reveal_with_fuel(heads_between, 2);
            }
        } else {
            lemma_pages_downwards(items, tops, i + 1, left, best);
        }
    }
}

/// A page upwards, the other way round.
pub proof fn lemma_pages_upwards(
    items: Seq<FileTreeItem>,
    tops: Seq<int>,
    i: int,
    left: int,
    best: int,
)
    requires
        -1 <= i < items.len(),
        0 <= left,
        i < best,
    ensures
        ({
            let r = page_up(items, tops, i, left, best);
            let all = heads_between(items, tops, 0, i + 1);
            &&& r != best ==> 0 <= r <= i && tops.contains(r) && items[r].visible
            &&& r != best ==> heads_between(items, tops, r, i + 1) == if all < left {
                all
            } else {
                left
            }
            &&& r == best ==> left == 0 || all == 0
        }),
    decreases i + 1,
{
    if i >= 0 {
        lemma_heads_are_counted(items, tops, 0, i, i + 1);
        reveal_with_fuel(heads_between, 2);
        if left > 0 {
            if tops.contains(i) && items[i].visible {
                lemma_pages_upwards(items, tops, i - 1, left - 1, i);
                let r = page_up(items, tops, i, left, best);
                if r < i {
                    lemma_heads_are_counted(items, tops, r, i, i + 1);
                }
            } else {
                lemma_pages_upwards(items, tops, i - 1, left, best);
                let r = page_up(items, tops, i, left, best);
                if r != best {
                    lemma_heads_are_counted(items, tops, r, i, i + 1);
                }
            }
        }
    }
}

/// The rows below a row reach up to the next one that is no deeper.
pub proof fn lemma_deeper_rows_follow(items: Seq<FileTreeItem>, i: int, j: int, k: int)
    requires
        0 <= i < j <= items.len(),
    ensures
        ({
            let end = subtree_end(items, i, j);
            &&& j <= end <= items.len()
            &&& j <= k < end ==> items[k].indent > items[i].indent
            &&& end < items.len() ==> items[end].indent <= items[i].indent
        }),
    decreases items.len() - j,
{
    if j < items.len() && items[i].indent < items[j].indent {
        lemma_deeper_rows_follow(items, i, j + 1, k);
    }
}

/// Folders that share a row are named one after the other.
pub proof fn lemma_shared_rows_are_named(items: Seq<FileTreeItem>, i: int, end: int)
    requires
        0 <= i < end < items.len(),
    ensures
        folded_name(items, i, i) == items[i].path@,
        folded_name(items, i, end) == folded_name(items, i, end - 1) + seq!['/']
            + items[end].path@,
{
}

/// A row is shared only with folders, each alone in the one before it.
pub proof fn lemma_who_shares_a_row(items: Seq<FileTreeItem>, i: int, k: int)
    requires
        0 <= i < items.len(),
    ensures
        i <= chain_end(items, i) < items.len(),
        i < k <= chain_end(items, i) ==> items[k].kind is Path && items[k - 1].indent
            < items[k].indent && !has_sibling(items, k),
        !folds(items, chain_end(items, i)),
    decreases items.len() - i,
{
    if folds(items, i) {
        lemma_who_shares_a_row(items, i + 1, k);
    }
}

/// The visible rows are drawn, in their order, and no others.
pub proof fn lemma_visible_rows_are_drawn(
    items: Seq<FileTreeItem>,
    tops: Seq<int>,
    n: int,
    k: int,
)
    requires
        0 <= n <= tops.len(),
    ensures
        0 <= k < drawn_rows(items, tops, n).len() ==> items[drawn_rows(
            items,
            tops,
            n,
        )[k].source].visible && tops.contains(drawn_rows(items, tops, n)[k].source),
        0 <= k < n && items[tops[k]].visible ==> drawn_rows(items, tops, n).contains(
            draw_row(items, tops[k]),
        ),
        drawn_rows(items, tops, n).len() <= n,
    decreases n,
{
    if n > 0 {
        lemma_visible_rows_are_drawn(items, tops, n - 1, k);
        let before = drawn_rows(items, tops, n - 1);
        let all = drawn_rows(items, tops, n);
        assert(tops.contains(tops[n - 1]));
        if 0 <= k < n && items[tops[k]].visible {
            let row = draw_row(items, tops[k]);
            if k < n - 1 {
                let i = choose|i: int| 0 <= i < before.len() && before[i] == row;
                assert(all[i] == row);
            } else {
                assert(all[all.len() - 1] == row);
            }
        }
    }
}

/// A file stands in a tree unless it lies too deep or has no name.
pub proof fn lemma_why_files_are_refused(item: StatusItem)
    ensures
        refusal(item) is None <==> separators(bare(item.path@)) <= 255 && paths::name_of(
            item.path@,
        ) is Some,
        separators(bare(item.path@)) > 255 ==> refusal(item) == Some(TreeError::TooDeep),
        refusal(item) == Some(TreeError::Nameless) ==> paths::name_of(item.path@) is None,
{
}

/// What lies below a collapsed folder is hidden, and nothing else is.
pub proof fn lemma_what_is_hidden(items: Seq<FileTreeItem>, i: int, j: int)
    requires
        visibility_holds(items),
        0 <= i < items.len(),
        0 <= j < items.len(),
    ensures
        items[j].kind == FileTreeItemKind::Path(true) && is_below(
            items[i].full_path@,
            items[j].full_path@,
        ) ==> !items[i].visible,
        (forall|k: int|
            0 <= k < items.len() && (#[trigger] items[k]).kind == FileTreeItemKind::Path(true)
                ==> !is_below(items[i].full_path@, items[k].full_path@)) ==> items[i].visible,
{
    if items[j].kind == FileTreeItemKind::Path(true) && is_below(
        items[i].full_path@,
        items[j].full_path@,
    ) {
        assert(items[j].is_collapsed());
        assert(is_hidden(items, i));
    }
}

/// Folders that were collapsed are known by their path.
pub proof fn lemma_collapsed_folders_are_known(items: Seq<FileTreeItem>, i: int)
    requires
        0 <= i < items.len(),
        items[i].kind == FileTreeItemKind::Path(true),
    ensures
        collapsed_paths(items).contains(items[i].full_path@),
{
    assert(items[i].is_collapsed());
}

proof fn lemma_head_above(items: Seq<FileTreeItem>, tops: Seq<int>, p: int) -> (q: int)
    requires
        0 < p < tops.len(),
    ensures
        0 <= q < p,
        head_above(items, tops, p) == tops[q],
        q == 0 || items[tops[q]].visible,
        forall|r: int| q < r < p ==> !items[#[trigger] tops[r]].visible,
    decreases p,
{
    if p == 1 || items[tops[p - 1]].visible {
        p - 1
    } else {
        lemma_head_above(items, tops, p - 1)
    }
}

/// A move upwards from a drawn row leads to the nearest one above it that is
/// visible, or to the first.
pub proof fn lemma_up_leads_to_the_drawn_row_before(tree: StatusTree, cur: int)
    requires
        0 <= cur < tree.items@.len(),
        heads(tree.items@, 0).contains(cur),
    ensures
        ({
            let items = tree.items@;
            let tops = heads(items, 0);
            let at = tree.target(cur, MoveSelection::Up);
            &&& tops.contains(at)
            &&& at == tops[0] || (at < cur && items[at].visible)
            &&& cur != tops[0] ==> at < cur
            &&& forall|k: int|
                0 <= k < tops.len() && #[trigger] tops[k] < cur && items[tops[k]].visible
                    ==> tops[k] <= at
        }),
{
    let items = tree.items@;
    let tops = heads(items, 0);
    lemma_heads_ordered(items, 0);
    let c = choose|c: int| 0 <= c < tops.len() && tops[c] == cur;
    let p = head_position(tops, cur, tops.len() as int);
    lemma_head_position(tops, cur, tops.len() as int);
    assert(p == c) by {
        if p < c {
            assert(tops[p] < tops[c]);
        } else if c < p {
            assert(tops[c] < tops[p]);
        }
    }
    let at = tree.target(cur, MoveSelection::Up);
    assert(tops.contains(tops[0]));
    if p > 0 {
        let q = lemma_head_above(items, tops, p);
        assert(tops[q] < tops[p]);
        assert(tops.contains(tops[q]));
        assert forall|k: int|
            0 <= k < tops.len() && #[trigger] tops[k] < cur && items[tops[k]].visible implies tops[k]
            <= at by {
            if k >= p {
                assert(k == p || tops[p] < tops[k]);
            }
            if q < k {
                assert(!items[tops[k]].visible);
            } else if k < q {
                assert(tops[k] < tops[q]);
            }
        }
    } else {
        assert forall|k: int|
            0 <= k < tops.len() && #[trigger] tops[k] < cur && items[tops[k]].visible implies tops[k]
            <= at by {
            if k > 0 {
                assert(tops[0] < tops[k]);
            }
        }
    }
}

/// A move to the right leads into a folder and leaves a file selected; home is the
/// first row.
pub proof fn lemma_where_right_and_home_lead(tree: StatusTree, cur: int)
    requires
        0 <= cur < tree.items@.len(),
    ensures
        tree.items@[cur].kind is Path ==> tree.target(cur, MoveSelection::Right) == tree.target(
            cur,
            MoveSelection::Down,
        ),
        tree.items@[cur].kind is File ==> tree.target(cur, MoveSelection::Right) == cur,
        tree.target(cur, MoveSelection::Home) == 0,
{
}

/// A page from a drawn row passes as many drawn rows as the window has, that row
/// counted, or as many as there are.
pub proof fn lemma_pages_are_as_long_as_the_window(tree: StatusTree, cur: int, height: usize)
    requires
        0 <= cur < tree.items@.len(),
        tree.window_height == Some(height),
        height > 0,
        heads(tree.items@, 0).contains(cur),
        tree.items@[cur].visible,
    ensures
        ({
            let items = tree.items@;
            let tops = heads(items, 0);
            let down = tree.target(cur, MoveSelection::PageDown);
            let up = tree.target(cur, MoveSelection::PageUp);
            let below = heads_between(items, tops, cur, items.len() as int);
            let above = heads_between(items, tops, 0, cur + 1);
            &&& cur <= down < items.len()
            &&& tops.contains(down) && items[down].visible
            &&& heads_between(items, tops, cur, down + 1) == if below < height {
                below
            } else {
                height as int
            }
            &&& 0 <= up <= cur
            &&& tops.contains(up) && items[up].visible
            &&& heads_between(items, tops, up, cur + 1) == if above < height {
                above
            } else {
                height as int
            }
        }),
{
    let items = tree.items@;
    let tops = heads(items, 0);
    let left = height as int;
    reveal_with_fuel(heads_between, 2);
    lemma_heads_are_counted(items, tops, cur + 1, cur + 1, items.len() as int);
    lemma_pages_downwards(items, tops, cur + 1, left - 1, cur);
    lemma_heads_are_counted(items, tops, 0, cur, cur + 1);
    lemma_pages_upwards(items, tops, cur - 1, left - 1, cur);
    let up = tree.target(cur, MoveSelection::PageUp);
    if up < cur {
        lemma_heads_are_counted(items, tops, up, cur, cur + 1);
    }
}

} // verus!
