//! The panel with a tree of changed files.
use crate::asyncgit::sync::status::{StatusItem, StatusItemType};
use crate::asyncgit::sync::CommitId;
use crate::components::statustree::{
    self, build_draw_info, multiple_items_at_path, DrawRow, FileTreeItem, FileTreeItemKind,
    MoveSelection, StatusTree, TextDrawInfo, TreeError,
};
use crate::components::{
    visibility_blocking, Command, CommandBlocking, CommandInfo, CommandOrder, EventState, Key,
    KeyPress,
};
use crate::paths;
use crate::text;
use crate::ui;
use vstd::prelude::*;
use vstd::string::*;

verus! {

/// The panel with a tree of changed files.
pub struct StatusTreeComponent {
    pub title: String,
    pub tree: StatusTree,
    pub pending: bool,
    pub current_hash: u64,
    pub focused: bool,
    pub show_selection: bool,
    pub scroll_top: usize,
    pub visible: bool,
    pub revision: Option<CommitId>,
    /// the rows to draw, until the layout of the tree changes
    pub draw_cache: Option<Vec<TextDrawInfo>>,
    /// whether the popup that offers paths for copying is open
    pub copy_popup: bool,
}

/// What a key press asks of the panel.
#[derive(Clone, Copy, Debug, PartialEq, Eq, Structural)]
pub enum TreeIntent {
    Ignore,
    /// it is for the popup above the panel
    Popup,
    Blame,
    History,
    Edit,
    CopyPath,
    Move(MoveSelection),
}

/// What has to be done outside after a key press.
#[derive(Debug, PartialEq, Eq)]
pub enum TreeAction {
    /// open the blame of a file, at a commit if there is one
    BlameFile(String, Option<CommitId>),
    /// open the history of a file
    FileHistory(String),
    /// edit a file
    OpenEditor(String),
    /// offer the path for copying, and the content if it is a file
    CopyPath(String, bool),
    /// have the diff refreshed
    UpdateDiff,
    /// let the popup for copying see the event
    PassToPopup,
}

/// What a [`TreeAction`] holds.
pub enum TreeActionView {
    BlameFile(Seq<char>, Option<CommitId>),
    FileHistory(Seq<char>),
    OpenEditor(Seq<char>),
    CopyPath(Seq<char>, bool),
    UpdateDiff,
    PassToPopup,
}

impl View for TreeAction {
    type V = TreeActionView;

    open spec fn view(&self) -> TreeActionView {
        match self {
            TreeAction::BlameFile(path, id) => TreeActionView::BlameFile(path@, *id),
            TreeAction::FileHistory(path) => TreeActionView::FileHistory(path@),
            TreeAction::OpenEditor(path) => TreeActionView::OpenEditor(path@),
            TreeAction::CopyPath(path, is_file) => TreeActionView::CopyPath(path@, *is_file),
            TreeAction::UpdateDiff => TreeActionView::UpdateDiff,
            TreeAction::PassToPopup => TreeActionView::PassToPopup,
        }
    }
}

/// The sign for what happened to a file.
pub open spec fn status_char(item_type: StatusItemType) -> char {
    match item_type {
        StatusItemType::Modified => 'M',
        StatusItemType::New => '+',
        StatusItemType::Deleted => '-',
        StatusItemType::Renamed => 'R',
        StatusItemType::Typechange => ' ',
        StatusItemType::Conflicted => '!',
    }
}

/// Whether the folder in row `i + 1` is alone in the one in row `i`.
pub open spec fn holds_only(items: Seq<FileTreeItem>, i: int) -> bool {
    i + 1 < items.len() && items[i].indent < items[i + 1].indent && items[i + 1].is_folder()
        && !statustree::has_sibling(items, i + 1)
}

/// A path with the folders that are alone in their folders behind it.
pub open spec fn path_through(items: Seq<FileTreeItem>, i: int, path: Seq<char>) -> Seq<char>
    decreases items.len() - i,
{
    if holds_only(items, i) {
        path_through(items, i + 1, path + seq!['/'] + items[i + 1].path@)
    } else {
        path
    }
}

/// The part that a drawn row plays, which decides its style.
#[derive(Clone, Copy, Debug, PartialEq, Eq, Structural)]
pub enum TreeStyle {
    Item(StatusItemType, bool),
    Folder(bool),
}

/// A drawn row.
#[derive(Debug, PartialEq, Eq)]
pub struct TreeLine {
    pub content: String,
    pub style: TreeStyle,
}

/// What a [`TreeLine`] holds.
pub struct TreeLineView {
    pub content: Seq<char>,
    pub style: TreeStyle,
}

impl View for TreeLine {
    type V = TreeLineView;

    open spec fn view(&self) -> TreeLineView {
        TreeLineView { content: self.content@, style: self.style }
    }
}

pub open spec fn blanks(n: int) -> Seq<char> {
    Seq::new(n as nat, |i: int| ' ')
}

/// A row as it is drawn: its sign, its indentation and its name, which fills
/// the panel if the row is selected.
pub open spec fn drawn_item(row: DrawRow, width: u16, selected: bool) -> TreeLineView {
    match row.kind {
        FileTreeItemKind::File(item) => {
            let name = paths::name_of(item.path@)->0;
            TreeLineView {
                content: seq![status_char(item.status), ' '] + blanks(row.indent * 2) + if selected {
                    text::left_aligned(name, width as int)
                } else {
                    name
                },
                style: TreeStyle::Item(item.status, selected),
            }
        },
        FileTreeItemKind::Path(collapsed) => TreeLineView {
            content: "  "@ + blanks(row.indent * 2) + seq![
                if collapsed {
                    '\u{25b8}'
                } else {
                    '\u{25be}'
                },
            ] + if selected {
                text::left_aligned(row.name, width as int)
            } else {
                row.name
            },
            style: TreeStyle::Folder(selected),
        },
    }
}

fn item_to_text(row: &TextDrawInfo, width: u16, selected: bool) -> (r: TreeLine)
    requires
        row.item_kind matches FileTreeItemKind::File(item) ==> paths::name_of(item.path@) is Some,
    ensures
        r@ == drawn_item(row@, width, selected),
{
    let indent: usize = row.indent as usize * 2;
    match &row.item_kind {
        FileTreeItemKind::File(item) => {
            let mut content = String::new();
            content.push(StatusTreeComponent::item_status_char(item.status));
            content.push(' ');
            content.append(text::repeat_char(' ', indent).as_str());
            let name = match paths::file_name(item.path.as_str()) {
                Some(name) => name,
                None => String::new(),
            };
            if selected {
                content.append(text::align_left(name.as_str(), width as usize).as_str());
            } else {
                content.append(name.as_str());
            }
            let r = TreeLine { content, style: TreeStyle::Item(item.status, selected) };
            assert(r@.content =~= drawn_item(row@, width, selected).content);
            r
        },
        FileTreeItemKind::Path(collapsed) => {
            let mut content = "  ".to_owned();
            content.append(text::repeat_char(' ', indent).as_str());
            if *collapsed {
                content.push('\u{25b8}');
            } else {
                content.push('\u{25be}');
            }
            if selected {
                content.append(text::align_left(row.name.as_str(), width as usize).as_str());
            } else {
                content.append(row.name.as_str());
            }
            let r = TreeLine { content, style: TreeStyle::Folder(selected) };
            assert(r@.content =~= drawn_item(row@, width, selected).content);
            r
        },
    }
}

/// How many of the first `n` drawn rows stand for rows up to `source`.
pub open spec fn rows_up_to(drawn: Seq<DrawRow>, source: int, n: int) -> nat
    decreases n,
{
    if n <= 0 {
        0
    } else if drawn[n - 1].source <= source {
        rows_up_to(drawn, source, n - 1) + 1
    } else {
        rows_up_to(drawn, source, n - 1)
    }
}

impl StatusTreeComponent {
    /// What holds of every panel: its tree is well-formed, and the rows to
    /// draw are those of the tree.
    pub open spec fn wf(self) -> bool {
        &&& self.tree.wf()
        &&& self.draw_cache matches Some(drawn) ==> text::views(drawn@) == statustree::all_drawn(
            self.tree.items@,
        )
    }

    /// The selected file.
    pub open spec fn file(self) -> Option<StatusItem> {
        match self.tree.selected() {
            Some(item) => match item.kind {
                FileTreeItemKind::File(f) => Some(f),
                FileTreeItemKind::Path(_) => None,
            },
            None => None,
        }
    }

    /// The path of the selected row, with the folders that share it.
    pub open spec fn folded_path(self) -> Option<Seq<char>> {
        match self.tree.selection {
            Some(i) => Some(
                if self.tree.items@[i as int].is_folder() {
                    path_through(
                        self.tree.items@,
                        i as int,
                        self.tree.items@[i as int].full_path@,
                    )
                } else {
                    self.tree.items@[i as int].full_path@
                },
            ),
            None => None,
        }
    }

    /// An empty panel that waits for files.
    pub fn new(title: &str, focus: bool) -> (r: StatusTreeComponent)
        ensures
            r.wf(),
            r.title@ == title@,
            r.tree.items@.len() == 0,
            r.tree.selection is None,
            r.tree.files == 0,
            r.pending,
            r.current_hash == 0,
            r.focused == focus,
            r.show_selection == focus,
            r.scroll_top == 0,
            !r.visible,
            r.revision is None,
            r.draw_cache is None,
            !r.copy_popup,
    {
        StatusTreeComponent {
            title: title.to_owned(),
            tree: StatusTree::new(),
            pending: true,
            current_hash: 0,
            focused: focus,
            show_selection: focus,
            scroll_top: 0,
            visible: false,
            revision: None,
            draw_cache: None,
            copy_popup: false,
        }
    }

    /// Note whether the popup that offers paths for copying is open.
    pub fn set_copy_popup(&mut self, open: bool)
        ensures
            *final(self) == (StatusTreeComponent { copy_popup: open, ..*old(self) }),
    {
        self.copy_popup = open;
    }

    /// Set the commit that the files belong to.
    pub fn set_commit(&mut self, revision: Option<CommitId>)
        ensures
            *final(self) == (StatusTreeComponent { revision, ..*old(self) }),
    {
        self.revision = revision;
    }

    /// Whether `after` is what the panel becomes when it is cleared.
    pub open spec fn clears(self, after: StatusTreeComponent) -> bool {
        &&& after == (StatusTreeComponent {
            current_hash: 0,
            pending: true,
            draw_cache: None,
            tree: after.tree,
            ..self
        })
        &&& after.tree.items@.len() == 0
        &&& after.tree.selection is None
        &&& after.tree.files == 0
        &&& after.tree.window_height == self.tree.window_height
    }

    /// Whether `after` is what the panel becomes when it shows files: folders
    /// stay collapsed and the selection stays, as far as they are still there.
    pub open spec fn shows(
        self,
        list: Seq<StatusItem>,
        new_hash: u64,
        after: StatusTreeComponent,
    ) -> bool {
        if self.current_hash == new_hash {
            after == (StatusTreeComponent { pending: false, ..self })
        } else {
            &&& after == (StatusTreeComponent {
                pending: false,
                tree: after.tree,
                current_hash: new_hash,
                draw_cache: None,
                ..self
            })
            &&& statustree::rows(after.tree.items@) == statustree::built(
                list,
                statustree::collapsed_paths(self.tree.items@),
                list.len() as int,
            )
            &&& after.tree.selection == self.tree.kept_selection(after.tree.items@)
            &&& after.tree.files == list.len()
        }
    }

    /// Show files. Their hash tells whether they differ from those shown.
    pub fn update(&mut self, list: &Vec<StatusItem>, new_hash: u64) -> (r: Result<(), TreeError>)
        requires
            old(self).wf(),
        ensures
            final(self).wf(),
            match r {
                Ok(_) => old(self).shows(list@, new_hash, *final(self)),
                Err(error) => old(self).current_hash != new_hash && statustree::list_refusal(list@)
                    == Some(error)
                    && *final(self) == (StatusTreeComponent { pending: false, ..*old(self) }),
            },
            r is Err <==> old(self).current_hash != new_hash && statustree::list_refusal(
                list@,
            ) is Some,
    {
        self.pending = false;
        if self.current_hash != new_hash {
            match self.tree.update(list) {
                Ok(_) => {},
                Err(e) => {
                    return Err(e);
                },
            }
            self.current_hash = new_hash;
            self.draw_cache = None;
        }
        Ok(())
    }

    /// The selected row.
    pub fn selection(&self) -> (r: Option<FileTreeItem>)
        requires
            self.wf(),
        ensures
            r == self.tree.selected(),
    {
        self.tree.selected_item()
    }

    /// The selected file.
    pub fn selection_file(&self) -> (r: Option<StatusItem>)
        requires
            self.wf(),
        ensures
            r == self.file(),
    {
        match self.tree.selected_item() {
            Some(item) => match item.kind {
                FileTreeItemKind::File(f) => Some(f),
                FileTreeItemKind::Path(_) => None,
            },
            None => None,
        }
    }

    /// The full path of the selected row, including any folders folded up
    /// into it (e.g. "abc/def" instead of just "abc").
    pub fn selection_folded_path(&self) -> (r: Option<String>)
        requires
            self.wf(),
        ensures
            match r {
                Some(path) => self.folded_path() == Some(path@),
                None => self.folded_path() is None,
            },
    {
        let selected: usize = match self.tree.selection {
            Some(i) => i,
            None => {
                return None;
            },
        };
        let items = &self.tree.items;
        let mut path = items[selected].full_path.clone();
        match items[selected].kind {
            FileTreeItemKind::File(_) => {
                return Some(path);
            },
            FileTreeItemKind::Path(_) => {},
        }
        let n: usize = items.len();
        let mut idx: usize = selected;
        while idx + 1 < n
            invariant
                items@ == self.tree.items@,
                n == items@.len(),
                selected <= idx < n,
                path_through(items@, idx as int, path@) == path_through(
                    items@,
                    selected as int,
                    items@[selected as int].full_path@,
                ),
            ensures
                path@ == path_through(
                    items@,
                    selected as int,
                    items@[selected as int].full_path@,
                ),
            decreases n - idx,
        {
            if items[idx].indent >= items[idx + 1].indent {
                break;
            }
            let is_file = match items[idx + 1].kind {
                FileTreeItemKind::File(_) => true,
                FileTreeItemKind::Path(_) => false,
            };
            if is_file || multiple_items_at_path(items, idx + 1) {
                break;
            }
            let ghost before = path@;
            path.push('/');
            path.append(items[idx + 1].path.as_str());
            assert(path@ =~= before + seq!['/'] + items@[idx + 1].path@);
            idx += 1;
        }
        Some(path)
    }

    /// Show or hide which row is selected.
    pub fn show_selection(&mut self, show: bool)
        ensures
            *final(self) == (StatusTreeComponent { show_selection: show, ..*old(self) }),
    {
        self.show_selection = show;
    }

    /// Whether there are no files.
    pub fn is_empty(&self) -> (r: bool)
        ensures
            r == (self.tree.items@.len() == 0),
    {
        self.tree.is_empty()
    }

    /// How many files there are.
    pub fn file_count(&self) -> (r: usize)
        ensures
            r == self.tree.files,
    {
        self.tree.files
    }

    /// Set the title.
    pub fn set_title(&mut self, title: String)
        ensures
            *final(self) == (StatusTreeComponent { title, ..*old(self) }),
    {
        self.title = title;
    }

    /// Show nothing until files arrive.
    pub fn clear(&mut self) -> (r: Result<(), TreeError>)
        requires
            old(self).wf(),
        ensures
            r is Ok,
            final(self).wf(),
            old(self).clears(*final(self)),
    {
        self.current_hash = 0;
        self.pending = true;
        let none: Vec<StatusItem> = Vec::new();
        let r = self.tree.update(&none);
        assert(statustree::list_refusal(none@) is None);
        assert(statustree::rows(self.tree.items@).len() == self.tree.items@.len());
        self.draw_cache = None;
        r
    }

    /// Whether a file is selected.
    pub fn is_file_selected(&self) -> (r: bool)
        requires
            self.wf(),
        ensures
            r == (self.file() is Some),
    {
        self.selection_file().is_some()
    }

    /// Move the selection. If something changes, the diff has to be refreshed.
    pub fn move_selection(&mut self, dir: MoveSelection) -> (changed: bool)
        requires
            old(self).wf(),
        ensures
            final(self).wf(),
            changed == old(self).tree.moves(dir),
            *final(self) == (StatusTreeComponent {
                tree: final(self).tree,
                draw_cache: if changed && (dir == MoveSelection::Left || dir
                    == MoveSelection::Right) {
                    None
                } else {
                    old(self).draw_cache
                },
                ..*old(self)
            }),
            moved(old(self).tree, final(self).tree, dir),
    {
        let changed = self.tree.move_selection(dir);
        if changed && (dir == MoveSelection::Left || dir == MoveSelection::Right) {
            self.draw_cache = None;
        }
        changed
    }

    /// The sign for what happened to a file.
    pub fn item_status_char(item_type: StatusItemType) -> (r: char)
        ensures
            r == status_char(item_type),
    {
        match item_type {
            StatusItemType::Modified => 'M',
            StatusItemType::New => '+',
            StatusItemType::Deleted => '-',
            StatusItemType::Renamed => 'R',
            StatusItemType::Typechange => ' ',
            StatusItemType::Conflicted => '!',
        }
    }

    /// The rows to draw.
    pub fn build_vec_text_draw_info_for_drawing(&self) -> (r: Vec<TextDrawInfo>)
        ensures
            text::views(r@) == statustree::all_drawn(self.tree.items@),
    {
        build_draw_info(&self.tree.items)
    }

    /// Give or take the focus; the selection shows along with it.
    pub fn focus(&mut self, focus: bool)
        ensures
            *final(self) == (StatusTreeComponent {
                focused: focus,
                show_selection: focus,
                ..*old(self)
            }),
    {
        self.focused = focus;
        self.show_selection(focus);
    }

    /// Show the panel or not.
    pub fn set_visible(&mut self, visible: bool)
        ensures
            *final(self) == (StatusTreeComponent { visible, ..*old(self) }),
    {
        self.visible = visible;
    }
}

/// What a move does to a tree.
pub open spec fn moved(before: StatusTree, after: StatusTree, dir: MoveSelection) -> bool {
    &&& after.files == before.files
    &&& after.window_height == before.window_height
    &&& match before.selection {
        Some(cur) => if before.toggles(cur as int, dir) {
            after.selection == Some(cur) && statustree::rows(after.items@) == statustree::rows(
                before.items@,
            ).update(
                cur as int,
                (statustree::RowView {
                    kind: FileTreeItemKind::Path(dir == MoveSelection::Left),
                    ..statustree::rows(before.items@)[cur as int]
                }),
            )
        } else {
            after.selection == Some(before.target(cur as int, dir) as usize) && after.items
                == before.items
        },
        None => after == before,
    }
}

// ------------------------------------------------------------------ drawing

/// What the panel draws.
#[derive(Debug, PartialEq, Eq)]
pub enum TreeDraw {
    /// nothing, since the panel is hidden
    Nothing,
    /// that files are being loaded
    Loading,
    /// rows, and where the scrollbar stands: the greatest scroll position and
    /// the current one, if there is one
    Rows(Vec<TreeLine>, Option<(usize, usize)>),
}

impl StatusTreeComponent {
    /// The drawn row that stands for the selected one: the last at or before it.
    pub open spec fn selected_row(self) -> int {
        let drawn = statustree::all_drawn(self.tree.items@);
        let source = match self.tree.selection {
            Some(i) => i as int,
            None => 0,
        };
        let n = rows_up_to(drawn, source, drawn.len() as int);
        if n > 0 {
            n - 1
        } else {
            0
        }
    }

    /// The panel after it was drawn in a given height.
    pub open spec fn drawn_state(self, height: int) -> int {
        ui::scroll_top(self.scroll_top as int, height, self.selected_row())
    }

    /// The rows that are drawn.
    pub open spec fn drawn_lines(self, width: u16, height: int) -> Seq<TreeLineView> {
        let drawn = statustree::all_drawn(self.tree.items@);
        let top = self.drawn_state(height);
        let count = if drawn.len() <= top {
            0
        } else if drawn.len() - top < height {
            drawn.len() - top
        } else {
            height
        };
        Seq::new(
            count as nat,
            |k: int|
                drawn_item(
                    drawn[top + k],
                    width,
                    self.show_selection && self.selected_row() == top + k,
                ),
        )
    }

    fn find_selected_row(drawn: &Vec<TextDrawInfo>, source: usize) -> (r: usize)
        ensures
            r == if rows_up_to(text::views(drawn@), source as int, drawn@.len() as int) > 0 {
                rows_up_to(text::views(drawn@), source as int, drawn@.len() as int) - 1
            } else {
                0
            },
            r < usize::MAX,
    {
        let mut n: usize = 0;
        for i in 0..drawn.len()
            invariant
                n == rows_up_to(text::views(drawn@), source as int, i as int),
                n <= i,
        {
            if drawn[i].source_index <= source {
                n += 1;
            }
        }
        n.saturating_sub(1)
    }

    /// Draw the panel into an area of the given size, borders included. The
    /// view scrolls so that the selected row shows.
    pub fn draw(&mut self, width: u16, height: u16) -> (r: TreeDraw)
        requires
            old(self).wf(),
        ensures
            final(self).wf(),
            match r {
                TreeDraw::Nothing => !old(self).visible && *final(self) == *old(self),
                TreeDraw::Loading => old(self).visible && old(self).pending && *final(self)
                    == *old(self),
                TreeDraw::Rows(lines, bar) => {
                    let rows = if height >= 2 {
                        height - 2
                    } else {
                        0
                    };
                    let count = statustree::all_drawn(old(self).tree.items@).len();
                    &&& old(self).visible && !old(self).pending
                    &&& text::views(lines@) == old(self).drawn_lines(width, rows)
                    &&& final(self).scroll_top == old(self).drawn_state(rows)
                    &&& bar == if old(self).focused && count > rows {
                        Some(((count - rows) as usize, final(self).scroll_top))
                    } else {
                        None
                    }
                    &&& final(self).draw_cache is Some
                    &&& *final(self) == (StatusTreeComponent {
                        scroll_top: final(self).scroll_top,
                        draw_cache: final(self).draw_cache,
                        tree: StatusTree {
                            window_height: Some(rows as usize),
                            ..old(self).tree
                        },
                        ..*old(self)
                    })
                },
            },
            r == TreeDraw::Nothing <==> !old(self).visible,
            r == TreeDraw::Loading <==> old(self).visible && old(self).pending,
    {
        if !self.visible {
            return TreeDraw::Nothing;
        }
        if self.pending {
            return TreeDraw::Loading;
        }
        let rows: usize = height.saturating_sub(2) as usize;
        let cached = self.draw_cache.take();
        let drawn = match cached {
            Some(drawn) => drawn,
            None => self.build_vec_text_draw_info_for_drawing(),
        };
        let ghost all = statustree::all_drawn(old(self).tree.items@);
        assert(text::views(drawn@) == all);
        let source: usize = match self.tree.selection {
            Some(i) => i,
            None => 0,
        };
        let select: usize = Self::find_selected_row(&drawn, source);
        assert(select == old(self).selected_row());
        self.tree.window_height = Some(rows);
        let top: usize = ui::calc_scroll_top(self.scroll_top, rows, select);
        self.scroll_top = top;
        let count: usize = if drawn.len() <= top {
            0
        } else if drawn.len() - top < rows {
            drawn.len() - top
        } else {
            rows
        };
        let mut lines: Vec<TreeLine> = Vec::new();
        for k in 0..count
            invariant
                count > 0 ==> top + count <= drawn@.len(),
                drawn@.len() <= usize::MAX,
                all == text::views(drawn@),
                all == statustree::all_drawn(self.tree.items@),
                self.tree.wf(),
                lines@.len() == k,
                forall|j: int|
                    0 <= j < k ==> (#[trigger] lines@[j])@ == drawn_item(
                        all[top + j],
                        width,
                        self.show_selection && select == top + j,
                    ),
        {
            let selected = self.show_selection && select == top + k;
            proof {
                statustree::lemma_drawn_named(self.tree.items@, top + k);
                assert(all[top + k] == drawn@[top + k]@);
            }
            lines.push(item_to_text(&drawn[top + k], width, selected));
        }
        assert(text::views(lines@) =~= old(self).drawn_lines(width, rows as int));
        let bar: Option<(usize, usize)> = if self.focused && drawn.len() > rows {
            Some((drawn.len() - rows, top))
        } else {
            None
        };
        self.draw_cache = Some(drawn);
        TreeDraw::Rows(lines, bar)
    }

    /// Whether a file is selected that git knows already.
    pub open spec fn known(self) -> bool {
        self.file() matches Some(f) && f.status != StatusItemType::New
    }

    /// The commands that the panel offers.
    pub open spec fn command_list(self, force_all: bool) -> Seq<CommandInfo> {
        let available = self.focused || force_all;
        let file = self.file() is Some;
        seq![
            CommandInfo::of(Command::NavigateTree, self.tree.items@.len() > 0, available).placed(
                CommandOrder::Navigation,
            ),
            CommandInfo::of(Command::BlameFile, self.known(), available).placed(
                CommandOrder::Rare,
            ),
            CommandInfo::of(Command::OpenFileHistory, self.known(), available).placed(
                CommandOrder::Rare,
            ),
            CommandInfo::of(Command::EditItem, file, available).placed(CommandOrder::Rare),
            CommandInfo::of(Command::CopyPath, file, available).placed(CommandOrder::Rare),
        ]
    }

    /// Add the commands that the panel offers. The open popup adds its own, and
    /// then nobody else does.
    pub fn commands(&self, out: &mut Vec<CommandInfo>, force_all: bool) -> (r: CommandBlocking)
        requires
            self.wf(),
        ensures
            final(out)@ == old(out)@ + self.command_list(force_all),
            r == if self.copy_popup {
                CommandBlocking::Blocking
            } else {
                CommandBlocking::PassingOn
            },
    {
        let available = self.focused || force_all;
        let (file, known) = match self.selection_file() {
            Some(f) => (true, f.status != StatusItemType::New),
            None => (false, false),
        };
        out.push(
            CommandInfo::new(Command::NavigateTree, !self.is_empty(), available).order(
                CommandOrder::Navigation,
            ),
        );
        out.push(
            CommandInfo::new(Command::BlameFile, known, available).order(CommandOrder::Rare),
        );
        out.push(
            CommandInfo::new(Command::OpenFileHistory, known, available).order(
                CommandOrder::Rare,
            ),
        );
        out.push(CommandInfo::new(Command::EditItem, file, available).order(CommandOrder::Rare));
        out.push(CommandInfo::new(Command::CopyPath, file, available).order(CommandOrder::Rare));
        assert(out@ =~= old(out)@ + self.command_list(force_all));
        visibility_blocking(self.copy_popup)
    }

    /// What a key press asks of the panel. The open popup gets all of them.
    pub open spec fn intent(self, press: KeyPress) -> TreeIntent {
        if self.copy_popup {
            TreeIntent::Popup
        } else if !self.focused {
            TreeIntent::Ignore
        } else if press.has(Key::Blame) {
            TreeIntent::Blame
        } else if press.has(Key::FileHistory) {
            TreeIntent::History
        } else if press.has(Key::EditFile) {
            TreeIntent::Edit
        } else if press.has(Key::Copy) || press.has(Key::CopyPath) {
            TreeIntent::CopyPath
        } else if press.has(Key::MoveDown) || press.has(Key::PopupDown) {
            TreeIntent::Move(MoveSelection::Down)
        } else if press.has(Key::MoveUp) || press.has(Key::PopupUp) {
            TreeIntent::Move(MoveSelection::Up)
        } else if press.has(Key::Home) || press.has(Key::ShiftUp) {
            TreeIntent::Move(MoveSelection::Home)
        } else if press.has(Key::End) || press.has(Key::ShiftDown) {
            TreeIntent::Move(MoveSelection::End)
        } else if press.has(Key::PageUp) {
            TreeIntent::Move(MoveSelection::PageUp)
        } else if press.has(Key::PageDown) {
            TreeIntent::Move(MoveSelection::PageDown)
        } else if press.has(Key::MoveLeft) {
            TreeIntent::Move(MoveSelection::Left)
        } else if press.has(Key::MoveRight) {
            TreeIntent::Move(MoveSelection::Right)
        } else {
            TreeIntent::Ignore
        }
    }

    fn key_intent(&self, press: &KeyPress) -> (r: TreeIntent)
        ensures
            r == self.intent(*press),
    {
        if self.copy_popup {
            TreeIntent::Popup
        } else if !self.focused {
            TreeIntent::Ignore
        } else if press.is(Key::Blame) {
            TreeIntent::Blame
        } else if press.is(Key::FileHistory) {
            TreeIntent::History
        } else if press.is(Key::EditFile) {
            TreeIntent::Edit
        } else if press.is(Key::Copy) || press.is(Key::CopyPath) {
            TreeIntent::CopyPath
        } else if press.is(Key::MoveDown) || press.is(Key::PopupDown) {
            TreeIntent::Move(MoveSelection::Down)
        } else if press.is(Key::MoveUp) || press.is(Key::PopupUp) {
            TreeIntent::Move(MoveSelection::Up)
        } else if press.is(Key::Home) || press.is(Key::ShiftUp) {
            TreeIntent::Move(MoveSelection::Home)
        } else if press.is(Key::End) || press.is(Key::ShiftDown) {
            TreeIntent::Move(MoveSelection::End)
        } else if press.is(Key::PageUp) {
            TreeIntent::Move(MoveSelection::PageUp)
        } else if press.is(Key::PageDown) {
            TreeIntent::Move(MoveSelection::PageDown)
        } else if press.is(Key::MoveLeft) {
            TreeIntent::Move(MoveSelection::Left)
        } else if press.is(Key::MoveRight) {
            TreeIntent::Move(MoveSelection::Right)
        } else {
            TreeIntent::Ignore
        }
    }

    /// What a key press with the given intent leads to outside.
    pub open spec fn actions(self, intent: TreeIntent) -> Seq<TreeActionView> {
        match intent {
            TreeIntent::Blame => if self.known() {
                seq![TreeActionView::BlameFile(self.file()->0.path@, self.revision)]
            } else {
                Seq::empty()
            },
            TreeIntent::History => if self.known() {
                seq![TreeActionView::FileHistory(self.file()->0.path@)]
            } else {
                Seq::empty()
            },
            TreeIntent::Edit => match self.file() {
                Some(f) => seq![TreeActionView::OpenEditor(f.path@)],
                None => Seq::empty(),
            },
            TreeIntent::CopyPath => match self.folded_path() {
                Some(path) => seq![TreeActionView::CopyPath(path, self.file() is Some)],
                None => Seq::empty(),
            },
            TreeIntent::Move(dir) => if self.tree.moves(dir) {
                seq![TreeActionView::UpdateDiff]
            } else {
                Seq::empty()
            },
            TreeIntent::Popup => seq![TreeActionView::PassToPopup],
            TreeIntent::Ignore => Seq::empty(),
        }
    }

    /// Whether the panel uses a key press up.
    pub open spec fn uses(self, press: KeyPress) -> bool {
        match self.intent(press) {
            TreeIntent::Move(dir) => self.tree.moves(dir),
            TreeIntent::Ignore => false,
            _ => true,
        }
    }

    /// Whether `after` is what the panel becomes on a key press, and `state` and
    /// `actions` what it answers. Opening the blame or the history of a file
    /// hides the panel. A move that leads nowhere is not used up.
    pub open spec fn reacts(
        self,
        press: KeyPress,
        after: StatusTreeComponent,
        state: EventState,
        actions: Seq<TreeActionView>,
    ) -> bool {
        &&& actions == self.actions(self.intent(press))
        &&& match self.intent(press) {
            TreeIntent::Move(dir) => {
                &&& state == EventState::of(self.tree.moves(dir))
                &&& moved(self.tree, after.tree, dir)
                &&& after == (StatusTreeComponent {
                    tree: after.tree,
                    draw_cache: if self.tree.moves(dir) && (dir == MoveSelection::Left || dir
                        == MoveSelection::Right) {
                        None
                    } else {
                        self.draw_cache
                    },
                    ..self
                })
            },
            TreeIntent::Blame | TreeIntent::History => state == EventState::Consumed && after == (
            StatusTreeComponent { visible: self.visible && !self.known(), ..self }),
            TreeIntent::Ignore => state == EventState::NotConsumed && after == self,
            _ => state == EventState::Consumed && after == self,
        }
    }

    /// React to a key press.
    pub fn event(&mut self, press: &KeyPress) -> (r: (EventState, Vec<TreeAction>))
        requires
            old(self).wf(),
        ensures
            final(self).wf(),
            old(self).reacts(*press, *final(self), r.0, text::views(r.1@)),
    {
        let mut out: Vec<TreeAction> = Vec::new();
        let intent = self.key_intent(press);
        let mut state = EventState::Consumed;
        match intent {
            TreeIntent::Ignore => {
                state = EventState::NotConsumed;
            },
            TreeIntent::Popup => {
                out.push(TreeAction::PassToPopup);
            },
            TreeIntent::Blame => match self.selection_file() {
                Some(f) => {
                    if f.status != StatusItemType::New {
                        out.push(TreeAction::BlameFile(f.path, self.revision));
                        self.visible = false;
                    }
                },
                None => {},
            },
            TreeIntent::History => {
                match self.open_history() {
                    Some(action) => {
                        out.push(action);
                    },
                    None => {},
                }
            },
            TreeIntent::Edit => match self.selection_file() {
                Some(f) => {
                    out.push(TreeAction::OpenEditor(f.path));
                },
                None => {},
            },
            TreeIntent::CopyPath => match self.selection_folded_path() {
                Some(path) => {
                    let is_file = self.is_file_selected();
                    out.push(TreeAction::CopyPath(path, is_file));
                },
                None => {},
            },
            TreeIntent::Move(dir) => {
                let changed = self.move_selection(dir);
                if changed {
                    out.push(TreeAction::UpdateDiff);
                }
                state = EventState::from_bool(changed);
            },
        }
        assert(text::views(out@) =~= old(self).actions(intent));
        (state, out)
    }

    /// Open the history of the selected file, unless it is new.
    fn open_history(&mut self) -> (r: Option<TreeAction>)
        requires
            old(self).wf(),
        ensures
            *final(self) == (StatusTreeComponent {
                visible: old(self).visible && !old(self).known(),
                ..*old(self)
            }),
            match r {
                Some(action) => old(self).known() && action@ == TreeActionView::FileHistory(
                    old(self).file()->0.path@,
                ),
                None => !old(self).known(),
            },
    {
        match self.selection_file() {
            Some(f) => if f.status != StatusItemType::New {
                self.visible = false;
                Some(TreeAction::FileHistory(f.path))
            } else {
                None
            },
            None => None,
        }
    }
}

/// An open popup hides the panel from the keys: the panel does nothing but pass
/// them on.
pub proof fn lemma_the_popup_comes_first(
    c: StatusTreeComponent,
    press: KeyPress,
    after: StatusTreeComponent,
    state: EventState,
    actions: Seq<TreeActionView>,
)
    requires
        c.copy_popup,
        c.reacts(press, after, state, actions),
    ensures
        after == c,
        state == EventState::Consumed,
        actions == seq![TreeActionView::PassToPopup],
{
}

/// New files have neither a history nor anyone to blame.
pub proof fn lemma_new_files_have_no_history(c: StatusTreeComponent)
    requires
        c.file() matches Some(f) && f.status == StatusItemType::New,
    ensures
        c.actions(TreeIntent::Blame).len() == 0,
        c.actions(TreeIntent::History).len() == 0,
{
}

/// Every kind of change has a sign of its own, and a changed type none.
pub proof fn lemma_signs(a: StatusItemType, b: StatusItemType)
    ensures
        status_char(a) == status_char(b) ==> a == b,
        status_char(StatusItemType::New) == '+',
        status_char(StatusItemType::Deleted) == '-',
        status_char(StatusItemType::Modified) == 'M',
        status_char(StatusItemType::Renamed) == 'R',
        status_char(StatusItemType::Conflicted) == '!',
        status_char(StatusItemType::Typechange) == ' ',
{
}

/// A row is drawn with its sign, two blanks for each level and its name; selected
/// or not, it reads the same.
pub proof fn lemma_rows_are_drawn(row: DrawRow, width: u16, i: int)
    ensures
        ({
            let drawn = drawn_item(row, width, false);
            let selected = drawn_item(row, width, true);
            let at = 2 + 2 * row.indent;
            &&& row.kind matches FileTreeItemKind::File(item) ==> drawn.content[0] == status_char(
                item.status,
            ) && drawn.content.skip(at as int) == paths::name_of(item.path@)->0
            &&& row.kind is Path ==> drawn.content[0] == ' ' && drawn.content.skip(at + 1)
                == row.name
            &&& row.kind == FileTreeItemKind::Path(true) ==> drawn.content[at as int]
                == '\u{25b8}'
            &&& row.kind == FileTreeItemKind::Path(false) ==> drawn.content[at as int]
                == '\u{25be}'
            &&& 2 <= i < at ==> drawn.content[i] == ' '
            &&& selected.content.len() >= drawn.content.len()
            &&& selected.content.take(drawn.content.len() as int) == drawn.content
        }),
{
    reveal_strlit("  ");
    let drawn = drawn_item(row, width, false);
    let selected = drawn_item(row, width, true);
    let at = 2 + 2 * row.indent;
    match row.kind {
        FileTreeItemKind::File(item) => {
            assert(drawn.content.skip(at as int) =~= paths::name_of(item.path@)->0);
        },
        FileTreeItemKind::Path(_) => {
            assert(drawn.content.skip(at + 1) =~= row.name);
        },
    }
    assert(selected.content.take(drawn.content.len() as int) =~= drawn.content);
}

/// Each key does what it is bound to, with the file that is selected: one that git
/// does not know yet has no blame and no history.
pub proof fn lemma_keys_act_on_the_selected_file(
    c: StatusTreeComponent,
    press: KeyPress,
    file: StatusItem,
)
    requires
        c.focused,
        !c.copy_popup,
        c.tree.selection is Some,
        c.tree.items@[c.tree.selection->0 as int].kind == FileTreeItemKind::File(file),
    ensures
        ({
            let actions = c.actions(c.intent(press));
            let known = file.status != StatusItemType::New;
            &&& press.is_only(Key::Blame) && known ==> actions == seq![
                TreeActionView::BlameFile(file.path@, c.revision),
            ]
            &&& press.is_only(Key::FileHistory) && known ==> actions == seq![
                TreeActionView::FileHistory(file.path@),
            ]
            &&& (press.is_only(Key::Blame) || press.is_only(Key::FileHistory)) && !known
                ==> actions.len() == 0
            &&& press.is_only(Key::EditFile) ==> actions == seq![
                TreeActionView::OpenEditor(file.path@),
            ]
            &&& press.is_only(Key::CopyPath) ==> actions == seq![
                TreeActionView::CopyPath(
                    c.tree.items@[c.tree.selection->0 as int].full_path@,
                    true,
                ),
            ]
        }),
{
}

/// The keys for moving.
pub proof fn lemma_keys_move_the_selection(c: StatusTreeComponent, press: KeyPress)
    requires
        c.focused,
        !c.copy_popup,
    ensures
        press.is_only(Key::MoveDown) ==> c.intent(press) == TreeIntent::Move(MoveSelection::Down),
        press.is_only(Key::MoveUp) ==> c.intent(press) == TreeIntent::Move(MoveSelection::Up),
        press.is_only(Key::MoveLeft) ==> c.intent(press) == TreeIntent::Move(MoveSelection::Left),
        press.is_only(Key::MoveRight) ==> c.intent(press) == TreeIntent::Move(
            MoveSelection::Right,
        ),
        press.is_only(Key::Home) ==> c.intent(press) == TreeIntent::Move(MoveSelection::Home),
        press.is_only(Key::End) ==> c.intent(press) == TreeIntent::Move(MoveSelection::End),
        press.is_only(Key::PageUp) ==> c.intent(press) == TreeIntent::Move(MoveSelection::PageUp),
        press.is_only(Key::PageDown) ==> c.intent(press) == TreeIntent::Move(
            MoveSelection::PageDown,
        ),
{
}

/// The selected row is the last drawn one that stands for the selection or for
/// something before it.
pub proof fn lemma_rows_are_counted(drawn: Seq<DrawRow>, source: int, n: int)
    requires
        0 <= n <= drawn.len(),
        forall|i: int, j: int|
            0 <= i < j < drawn.len() ==> (#[trigger] drawn[i]).source < (#[trigger] drawn[j]).source,
    ensures
        ({
            let r = rows_up_to(drawn, source, n);
            &&& r <= n
            &&& forall|i: int| 0 <= i < r ==> (#[trigger] drawn[i]).source <= source
            &&& forall|i: int| r <= i < n ==> (#[trigger] drawn[i]).source > source
        }),
    decreases n,
{
    if n > 0 {
        lemma_rows_are_counted(drawn, source, n - 1);
        let before = rows_up_to(drawn, source, n - 1);
        if drawn[n - 1].source <= source && before < n - 1 {
            assert(drawn[before as int].source < drawn[n - 1].source);
        }
    }
}

/// The selected row is drawn, and as selected where the selection is shown; no
/// other row is.
pub proof fn lemma_the_selected_row_is_drawn(
    c: StatusTreeComponent,
    width: u16,
    height: int,
    k: int,
)
    requires
        0 < height,
        0 <= k < c.drawn_lines(width, height).len(),
    ensures
        ({
            let top = c.drawn_state(height);
            let drawn = statustree::all_drawn(c.tree.items@);
            &&& k < height
            &&& c.drawn_lines(width, height)[k] == drawn_item(
                drawn[top + k],
                width,
                c.show_selection && c.selected_row() == top + k,
            )
            &&& top <= c.selected_row() < top + height
        }),
{
    ui::lemma_selection_is_shown(c.scroll_top as int, height, c.selected_row());
}

/// Nothing that fits is left out.
pub proof fn lemma_all_rows_that_fit_are_drawn(c: StatusTreeComponent, width: u16, height: int)
    requires
        0 < height,
    ensures
        ({
            let n = c.drawn_lines(width, height).len();
            let drawn = statustree::all_drawn(c.tree.items@);
            n == height || n + c.drawn_state(height) >= drawn.len()
        }),
{
}

/// The path of folders that share a row goes on from the first to the last of
/// them; a folder that holds anything else stands for itself.
pub proof fn lemma_shared_rows_have_the_whole_path(
    items: Seq<FileTreeItem>,
    i: int,
    path: Seq<char>,
)
    requires
        0 <= i < items.len(),
    ensures
        text::starts(path_through(items, i, path), path),
        !holds_only(items, i) ==> path_through(items, i, path) == path,
        holds_only(items, i) ==> text::starts(
            path_through(items, i, path),
            path + seq!['/'] + items[i + 1].path@,
        ),
    decreases items.len() - i,
{
    if holds_only(items, i) {
        let longer = path + seq!['/'] + items[i + 1].path@;
        lemma_shared_rows_have_the_whole_path(items, i + 1, longer);
        let r = path_through(items, i, path);
        assert(r.take(path.len() as int) =~= longer.take(path.len() as int)) by {
            assert(r.take(longer.len() as int) =~= longer);
            assert forall|k: int| 0 <= k < path.len() implies r.take(path.len() as int)[k]
                == longer.take(path.len() as int)[k] by {
                assert(r[k] == r.take(longer.len() as int)[k]);
            }
        }
        assert(longer.take(path.len() as int) =~= path);
    } else {
        assert(path.take(path.len() as int) =~= path);
    }
}

/// A list that is cleared holds nothing and waits; one that is shown holds its
/// files and does not. The same list again changes nothing else.
pub proof fn lemma_lists_are_shown(
    c: StatusTreeComponent,
    list: Seq<StatusItem>,
    hash: u64,
    after: StatusTreeComponent,
)
    ensures
        c.clears(after) ==> after.tree.items@.len() == 0 && after.tree.selection is None
            && after.pending && after.current_hash == 0 && after.focused == c.focused,
        c.shows(list, hash, after) ==> !after.pending && after.current_hash == hash
            && after.focused == c.focused && after.title == c.title,
        c.shows(list, hash, after) && c.current_hash == hash ==> after.tree == c.tree,
        c.shows(list, hash, after) && c.current_hash != hash ==> after.tree.files == list.len(),
{
}

/// A file is offered to be edited where one is selected, and its history only
/// where it has one.
pub proof fn lemma_offered_commands_of_the_tree(c: StatusTreeComponent, force_all: bool, i: int)
    requires
        0 <= i < c.command_list(force_all).len(),
    ensures
        ({
            let command = c.command_list(force_all)[i];
            let kind = command.command;
            &&& command.available <==> c.focused || force_all
            &&& kind == Command::EditItem || kind == Command::CopyPath ==> (command.enabled
                <==> c.file() is Some)
            &&& kind == Command::BlameFile || kind == Command::OpenFileHistory ==> (
            command.enabled <==> c.file() is Some && c.file()->0.status != StatusItemType::New)
            &&& kind == Command::NavigateTree ==> (command.enabled <==> c.tree.items@.len() > 0)
        }),
{
}

/// A key to the left collapses an open folder and a key to the right expands a
/// collapsed one; every other move changes the selection alone.
pub proof fn lemma_folders_are_toggled(before: StatusTree, after: StatusTree, cur: usize)
    requires
        before.selection == Some(cur),
        cur < before.items@.len(),
    ensures
        before.items@[cur as int].kind == FileTreeItemKind::Path(false) && moved(
            before,
            after,
            MoveSelection::Left,
        ) ==> after.selection == Some(cur) && statustree::rows(after.items@)[cur as int].kind
            == FileTreeItemKind::Path(true),
        before.items@[cur as int].kind == FileTreeItemKind::Path(true) && moved(
            before,
            after,
            MoveSelection::Right,
        ) ==> after.selection == Some(cur) && statustree::rows(after.items@)[cur as int].kind
            == FileTreeItemKind::Path(false),
        before.items@[cur as int].kind is File && moved(before, after, MoveSelection::Right)
            ==> after.items == before.items,
        moved(before, after, MoveSelection::Down) || moved(before, after, MoveSelection::Up)
            ==> after.items == before.items && after.files == before.files,
{
}

} // verus!
