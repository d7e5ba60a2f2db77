//! The application state behind the terminal UI and its transitions.
//!
//! The terminal loop lives outside the library: it draws the state, reads a
//! key, and hands it to [`App::step`]. A step answers with a [`Command`] for
//! the outside work it needs (reading the notes directory, a note, the
//! reminders; running the editor; changing files or reminders); the loop
//! performs it and hands the outcome back as the next [`Event`], until the
//! step answers [`Command::Idle`].

use vstd::prelude::*;

use crate::content;
use crate::date::{parse_date, parse_ymd, Date};
use crate::fs_ops::{self, FsError};
use crate::fuzzy;
use crate::models::Reminder;
use crate::notes::{self, DirNode, NoteTree, TreeNode};
use crate::paths::{
    file_name, first_piece, join_spec, kept_piece, lemma_components_nonempty, lemma_join_components,
    lemma_root_first, normal_parts, parent, path_components, path_file_name, path_parent,
    path_strip_prefix, same_path, strip_prefix,
};
use crate::text::{chars_of, lines, lines_spec, string_of, trim_chars, trim_spec, views};

verus! {

/// Which key handler is active.
#[derive(Clone, Copy, Debug, PartialEq, Eq, Structural)]
pub enum Mode {
    Normal,
    Search,
    AddReminder,
    Prompt,
    Confirm,
}

/// Which panel has the focus.
#[derive(Clone, Copy, Debug, PartialEq, Eq, Structural)]
pub enum Focus {
    Tree,
    Reminders,
}

/// Two-step reminder entry: text first, then optional due date.
#[derive(Clone, Copy, Debug, PartialEq, Eq, Structural)]
pub enum AddStage {
    Text,
    Due,
}

/// Whether `/` search filters by filename (fuzzy) or file content
/// (substring).
#[derive(Clone, Copy, Debug, PartialEq, Eq, Structural)]
pub enum SearchScope {
    Name,
    Content,
}

/// Which single-line prompt is active in `Mode::Prompt`.
#[derive(Clone, Copy, Debug, PartialEq, Eq, Structural)]
pub enum PromptKind {
    NewNote,
    NewFolder,
    Rename,
}

/// A search result: index into `files`, plus a content snippet when the
/// match came from file content rather than the name.
pub struct SearchHit {
    pub file: usize,
    pub snippet: Option<String>,
}

/// One rendered row of the left panel (tree node or search hit).
pub struct TreeRow {
    pub text: String,
    pub is_dir: bool,
}

/// The longest preview, in lines.
pub const PREVIEW_LINES: usize = 200;

/// Parse result of the due-date field: empty means no due date.
pub open spec fn parse_due_spec(input: Seq<char>) -> Result<Option<Date>, Seq<char>> {
    let t = trim_spec(input);
    if t.len() == 0 {
        Ok(None)
    } else {
        match parse_ymd(t) {
            Some(d) => Ok(Some(Date { year: d.0, month: d.1, day: d.2 })),
            None => Err("invalid date '"@ + t + "', expected YYYY-MM-DD"@),
        }
    }
}

/// Parses the due-date field: empty is `None`; otherwise `YYYY-MM-DD`.
pub fn parse_due(input: &str) -> (r: Result<Option<Date>, String>)
    ensures
        r matches Ok(d) ==> parse_due_spec(input@) == Ok::<Option<Date>, Seq<char>>(d),
        r matches Err(m) ==> parse_due_spec(input@) == Err::<Option<Date>, Seq<char>>(m@),
        r matches Ok(Some(d)) ==> d.valid(),
{
    let t = string_of(trim_chars(&chars_of(input)).as_slice());
    if chars_of(t.as_str()).len() == 0 {
        return Ok(None);
    }
    match parse_date(t.as_str()) {
        Some(d) => Ok(Some(d)),
        None => {
            let mut m = String::from_str("invalid date '");
            m.append(t.as_str());
            m.append("', expected YYYY-MM-DD");
            Err(m)
        },
    }
}

/// The label of a note: its path relative to the notes root, or the whole
/// path when it is not under the root.
pub open spec fn relative_label_spec(root: Seq<char>, path: Seq<char>) -> Seq<char> {
    match path_strip_prefix(path, root) {
        Some(r) => r,
        None => path,
    }
}

/// Path relative to the notes root, for display.
///
/// Under the root, the root's components followed by the label's are the
/// path's, and for a root with components the label does not start with
/// `/`; elsewhere the label is the path itself.
pub fn relative_label(root: &str, path: &str) -> (r: String)
    ensures
        r@ == relative_label_spec(root@, path@),
        path_components(root@).is_prefix_of(path_components(path@)) ==> path_components(root@)
            + path_components(r@) == path_components(path@),
        path_components(root@).is_prefix_of(path_components(path@)) && path_components(root@).len()
            > 0 ==> r@.len() == 0 || r@[0] != '/',
        !path_components(root@).is_prefix_of(path_components(path@)) ==> r@ == path@,
        path_components(root@).is_prefix_of(path_components(path@)) ==> path_components(
            join_spec(root@, r@),
        ) == path_components(path@),
{
    let stripped = strip_prefix(path, root);
    proof {
        lemma_root_first(path@);
        if stripped is Some {
            let r = stripped->0;
            let n = path_components(root@).len();
            if r@.len() > 0 && r@[0] == '/' && n > 0 {
                assert(path_components(r@)[0] == seq!['/']);
                assert(path_components(path@)[n as int] == path_components(r@)[0]);
            }
            if root@.len() == 0 {
                assert(join_spec(root@, r@) =~= r@);
                assert(path_components(root@) =~= Seq::<Seq<char>>::empty()) by {
                    assert(normal_parts(root@) == kept_piece(root@));
                }
                assert(path_components(root@) + path_components(r@) =~= path_components(r@));
            } else {
                lemma_components_nonempty(root@);
                if path_components(r@).len() > 0 {
                    assert(path_components(path@)[n as int] == path_components(r@)[0]);
                }
                if r@.len() > 0 && r@[0] == '/' {
                    assert(path_components(r@)[0] == seq!['/']);
                }
                if !(r@.len() > 0 && r@[0] == '/') && first_piece(r@) == seq!['.'] {
                    assert(path_components(r@)[0] == seq!['.']);
                }
                lemma_join_components(root@, r@);
            }
        }
    }
    label_from(path, stripped)
}

/// The label of `path` given what stripping the root from it gave: the rest
/// when the root was a prefix, else the whole path.
pub fn label_from(path: &str, stripped: Option<String>) -> (r: String)
    ensures
        r@ == match stripped {
            Some(s) => s@,
            None => path@,
        },
{
    match stripped {
        Some(r) => r,
        None => String::from_str(path),
    }
}

/// `lines` joined with `'\n'`.
pub open spec fn join_lines(lines: Seq<Seq<char>>) -> Seq<char>
    decreases lines.len(),
{
    if lines.len() == 0 {
        Seq::empty()
    } else if lines.len() == 1 {
        lines[0]
    } else {
        join_lines(lines.drop_last()) + seq!['\n'] + lines.last()
    }
}

/// The preview of a note's text: its first 200 lines, joined with `'\n'`.
pub open spec fn preview_text_spec(text: Seq<char>) -> Seq<char> {
    let ls = lines_spec(text);
    join_lines(
        if ls.len() <= PREVIEW_LINES {
            ls
        } else {
            ls.subrange(0, PREVIEW_LINES as int)
        },
    )
}

/// The first 200 lines of a note's text, joined with `'\n'`.
pub fn preview_text(text: &str) -> (r: String)
    ensures
        r@ == preview_text_spec(text@),
{
    let ls = lines(&chars_of(text));
    let ghost all = views(ls@);
    let n = if ls.len() <= PREVIEW_LINES {
        ls.len()
    } else {
        PREVIEW_LINES
    };
    let ghost kept = if all.len() <= PREVIEW_LINES {
        all
    } else {
        all.subrange(0, PREVIEW_LINES as int)
    };
    assert(kept.len() == n);
    let mut out: Vec<char> = Vec::new();
    let mut i: usize = 0;
    while i < n
        invariant
            n <= ls@.len(),
            all == views(ls@),
            kept.len() == n,
            forall|j: int| 0 <= j < n ==> kept[j] == all[j],
            i <= n,
            out@ == join_lines(kept.subrange(0, i as int)),
        decreases n - i,
    {
        if i > 0 {
            out.push('\n');
        }
        let ghost before = out@;
        let mut j: usize = 0;
        while j < ls[i].len()
            invariant
                i < ls@.len(),
                j <= ls@[i as int]@.len(),
                out@ == before + ls@[i as int]@.subrange(0, j as int),
            decreases ls@[i as int]@.len() - j,
        {
            out.push(ls[i][j]);
            assert(out@ =~= before + ls@[i as int]@.subrange(0, j + 1));
            j = j + 1;
        }
        proof {
            assert(ls@[i as int]@.subrange(0, ls@[i as int]@.len() as int) =~= ls@[i as int]@);
            assert(all[i as int] == ls@[i as int]@);
            let p = kept.subrange(0, i + 1);
            assert(p.drop_last() =~= kept.subrange(0, i as int));
            assert(p.last() == kept[i as int]);
            if i == 0 {
                assert(p =~= seq![kept[0]]);
            }
        }
        i = i + 1;
    }
    assert(kept.subrange(0, n as int) =~= kept);
    string_of(out.as_slice())
}

/// The message shown in place of a note that could not be read.
pub open spec fn unreadable_spec(path: Seq<char>, err: Seq<char>) -> Seq<char> {
    "<cannot read "@ + path + ": "@ + err + ">"@
}

/// The marker shown in the preview for a note that could not be read.
pub fn unreadable(path: &str, err: &str) -> (r: String)
    ensures
        r@ == unreadable_spec(path@, err@),
{
    let mut m = String::from_str("<cannot read ");
    m.append(path);
    m.append(": ");
    m.append(err);
    m.append(">");
    m
}

/// The name shown for a path in the tree: its file name, `?` if none.
pub open spec fn shown_name(path: Seq<char>) -> Seq<char> {
    match path_file_name(path) {
        Some(n) => n,
        None => seq!['?'],
    }
}

/// Two spaces per level.
pub open spec fn indent(depth: usize) -> Seq<char> {
    Seq::new(2 * depth as nat, |i: int| ' ')
}

/// The text of a tree row: indented, directories with an open or closed
/// marker and a trailing `/`.
pub open spec fn tree_label_spec(path: Seq<char>, depth: usize, is_dir: bool, expanded: bool) -> Seq<
    char,
> {
    if is_dir {
        indent(depth) + seq![if expanded { '\u{25be}' } else { '\u{25b8}' }, ' '] + shown_name(path)
            + seq!['/']
    } else {
        indent(depth) + seq![' ', ' '] + shown_name(path)
    }
}

/// The text of a search-hit row: the label, then the snippet if any.
pub open spec fn hit_label_spec(label: Seq<char>, snippet: Option<Seq<char>>) -> Seq<char> {
    match snippet {
        Some(s) => label + seq![' ', ' ', '\u{2014}', ' '] + s,
        None => label,
    }
}

fn append_chars(out: &mut Vec<char>, s: &Vec<char>)
    ensures
        final(out)@ == old(out)@ + s@,
{
    let mut i: usize = 0;
    while i < s.len()
        invariant
            i <= s@.len(),
            out@ == old(out)@ + s@.subrange(0, i as int),
        decreases s@.len() - i,
    {
        out.push(s[i]);
        assert(out@ =~= old(out)@ + s@.subrange(0, i + 1));
        i = i + 1;
    }
    assert(s@.subrange(0, s@.len() as int) =~= s@);
}

/// The text of a tree row.
pub fn tree_label(path: &str, depth: usize, is_dir: bool, expanded: bool) -> (r: String)
    ensures
        r@ == tree_label_spec(path@, depth, is_dir, expanded),
{
    let mut out: Vec<char> = Vec::new();
    let mut d: usize = 0;
    while d < depth
        invariant
            d <= depth,
            out@ == Seq::new(2 * d as nat, |i: int| ' '),
        decreases depth - d,
    {
        out.push(' ');
        out.push(' ');
        assert(out@ =~= Seq::new(2 * (d + 1) as nat, |i: int| ' '));
        d = d + 1;
    }
    let name = match file_name(path) {
        Some(n) => chars_of(n.as_str()),
        None => vec!['?'],
    };
    assert(name@ == shown_name(path@));
    let ghost ind = out@;
    if is_dir {
        out.push(if expanded { '\u{25be}' } else { '\u{25b8}' });
        out.push(' ');
        append_chars(&mut out, &name);
        out.push('/');
        assert(out@ =~= tree_label_spec(path@, depth, is_dir, expanded));
    } else {
        out.push(' ');
        out.push(' ');
        append_chars(&mut out, &name);
        assert(out@ =~= tree_label_spec(path@, depth, is_dir, expanded));
    }
    string_of(out.as_slice())
}

/// The text of a search-hit row.
pub fn hit_label(label: &str, snippet: &Option<String>) -> (r: String)
    ensures
        r@ == hit_label_spec(label@, match snippet {
            Some(s) => Some(s@),
            None => None,
        }),
{
    match snippet {
        Some(s) => {
            let mut out = chars_of(label);
            let sep = vec![' ', ' ', '\u{2014}', ' '];
            append_chars(&mut out, &sep);
            append_chars(&mut out, &chars_of(s.as_str()));
            assert(out@ =~= label@ + seq![' ', ' ', '\u{2014}', ' '] + s@);
            string_of(out.as_slice())
        },
        None => String::from_str(label),
    }
}

} // verus!

verus! {

/// A key press, as the key handlers see it.
#[derive(Clone, Copy, Debug, PartialEq, Eq, Structural)]
pub enum Key {
    Char(char),
    Enter,
    Esc,
    Tab,
    Backspace,
    Up,
    Down,
    /// Any other key; every handler ignores it, except that it cancels a
    /// delete confirmation.
    Other,
}

/// What to do once a reload has finished.
pub enum After {
    Nothing,
    /// Select the row of this path (when shown), then set this status.
    Select(String, String),
    /// Set this status.
    Status(String),
}

/// The outcome a step is waiting for.
pub enum Awaiting {
    /// Nothing: the next event is a key.
    Nothing,
    /// The notes directory and the reminders, for a reload.
    Loaded(After),
    /// The contents of the notes, for a content search (`Some` when it is
    /// part of a reload, with what to do afterwards).
    Contents(Option<After>),
    /// The text of the note at this path, for the preview.
    Preview(String),
    /// The editor to close.
    Editor(After),
    /// The active reminders after a change; then this status.
    Reminders(String),
    /// Creation of the note at this path.
    NoteCreated(String),
    /// Creation of the folder at this path.
    FolderCreated(String),
    /// Renaming to this path.
    Renamed(String),
    /// Deletion of the note chosen for deletion.
    Deleted,
}

/// Outside work a step asks for.
pub enum Command {
    /// Nothing: draw and wait for the next key.
    Idle,
    /// Read the notes directory and the active reminders; answer with
    /// `Event::Loaded`.
    Reload,
    /// Read the text of every note in `files`, in order (`None` for one that
    /// cannot be read); answer with `Event::Contents`.
    ReadContents,
    /// Read the text of this note; answer with `Event::Preview`.
    ReadPreview(String),
    /// Open this note in the editor and redraw afterwards; answer with
    /// `Event::EditorClosed`.
    OpenEditor(String),
    /// Store a new reminder (text, due date) created now; answer with
    /// `Event::Reminders`.
    AddReminder(String, Option<Date>),
    /// Mark this reminder dismissed now; answer with `Event::Reminders`.
    DismissReminder(i64),
    /// Create an empty note at this path, unless something is there; answer
    /// with `Event::FsDone`.
    CreateNote(String),
    /// Create a folder at this path, unless something is there; answer with
    /// `Event::FsDone`.
    CreateFolder(String),
    /// Rename the note at the first path to the second, unless something is
    /// there; answer with `Event::FsDone`.
    Rename(String, String),
    /// Delete this note; answer with `Event::FsDone`.
    Delete(String),
}

/// An input to a step: a key, or the outcome of the last command.
pub enum Event {
    Key(Key),
    /// The notes directory (its root entry) and the active reminders.
    Loaded(DirNode, Vec<Reminder>),
    /// The text of each note in `files`, `None` where it could not be read.
    Contents(Vec<Option<String>>),
    /// The text of the note asked for, or why it could not be read.
    Preview(Result<String, String>),
    EditorClosed,
    /// The active reminders.
    Reminders(Vec<Reminder>),
    /// Whether the file operation asked for succeeded.
    FsDone(Result<(), FsError>),
}

/// Whole-application state.
pub struct App {
    pub notes_dir: String,
    pub tree: NoteTree,
    pub visible: Vec<TreeNode>,
    pub files: Vec<String>,
    pub file_labels: Vec<String>,
    pub results: Vec<SearchHit>,
    pub selected: usize,
    pub search: String,
    pub search_scope: SearchScope,
    pub reminders: Vec<Reminder>,
    pub rem_selected: usize,
    pub mode: Mode,
    pub focus: Focus,
    pub add_stage: AddStage,
    pub input_text: String,
    pub input_due: String,
    pub prompt_kind: PromptKind,
    pub prompt_input: String,
    pub prompt_target: Option<String>,
    pub delete_target: Option<String>,
    pub preview: String,
    pub preview_is_md: bool,
    pub status: String,
    pub should_quit: bool,
    pub awaiting: Awaiting,
}

impl App {
    /// A search is under way.
    pub open spec fn searching(self) -> bool {
        self.search@.len() > 0
    }

    /// Length of the left panel's list: search hits when searching, else
    /// tree rows.
    pub open spec fn list_len_spec(self) -> nat {
        if self.searching() {
            self.results@.len()
        } else {
            self.visible@.len()
        }
    }

    /// The note the selection points at.
    pub open spec fn selected_file_spec(self) -> Option<Seq<char>> {
        if self.searching() {
            if self.selected < self.results@.len() && self.results@[self.selected as int].file
                < self.files@.len() {
                Some(self.files@[self.results@[self.selected as int].file as int]@)
            } else {
                None
            }
        } else if self.selected < self.visible@.len() && !self.visible@[self.selected as int].is_dir {
            Some(self.visible@[self.selected as int].path@)
        } else {
            None
        }
    }

    /// The reminder selection is within the reminders (0 when there are
    /// none).
    pub open spec fn rem_selection_ok(self) -> bool {
        if self.reminders@.len() == 0 {
            self.rem_selected == 0
        } else {
            self.rem_selected < self.reminders@.len()
        }
    }

    /// The state's own consistency: one label per note, search hits point at
    /// notes, the reminder selection is in range.
    pub open spec fn wf(self) -> bool {
        &&& self.file_labels@.len() == self.files@.len()
        &&& forall|k: int| 0 <= k < self.results@.len() ==> (#[trigger] self.results@[k]).file < self.files@.len()
        &&& self.rem_selection_ok()
    }

    /// Whether a search is under way.
    pub fn is_searching(&self) -> (b: bool)
        ensures
            b == self.searching(),
    {
        !self.search.as_str().is_empty()
    }

    /// Length of the left panel's list.
    pub fn list_len(&self) -> (n: usize)
        ensures
            n == self.list_len_spec(),
    {
        if self.is_searching() {
            self.results.len()
        } else {
            self.visible.len()
        }
    }

    /// The note the selection points at, if any.
    pub fn selected_file(&self) -> (r: Option<String>)
        ensures
            r matches Some(p) ==> self.selected_file_spec() == Some(p@),
            r is None ==> self.selected_file_spec() is None,
    {
        if self.is_searching() {
            if self.selected < self.results.len() && self.results[self.selected].file < self.files.len() {
                return Some(self.files[self.results[self.selected].file].clone());
            }
            return None;
        }
        if self.selected < self.visible.len() && !self.visible[self.selected].is_dir {
            return Some(self.visible[self.selected].path.clone());
        }
        None
    }
}

} // verus!

verus! {

/// The preview follows the selection: when it points at a note, that note
/// is read (and marked markdown or not); otherwise the preview is emptied.
pub open spec fn preview_requested(a: App, b: App, c: Command) -> bool {
    match a.selected_file_spec() {
        Some(p) => c matches Command::ReadPreview(q) && q@ == p && b == (App {
            preview_is_md: notes::is_markdown_path(p),
            awaiting: Awaiting::Preview(q),
            ..a
        }),
        None => c is Idle && b.preview@ == Seq::<char>::empty() && b == (App {
            preview: b.preview,
            preview_is_md: false,
            ..a
        }),
    }
}

/// Moving the selection down one row in the focused panel.
pub open spec fn move_down_post(a: App, b: App, c: Command) -> bool {
    match a.focus {
        Focus::Tree => if a.selected + 1 < a.list_len_spec() {
            preview_requested(App { selected: (a.selected + 1) as usize, ..a }, b, c)
        } else {
            b == a && c is Idle
        },
        Focus::Reminders => c is Idle && b == if a.rem_selected + 1 < a.reminders@.len() {
            App { rem_selected: (a.rem_selected + 1) as usize, ..a }
        } else {
            a
        },
    }
}

/// Moving the selection up one row in the focused panel.
pub open spec fn move_up_post(a: App, b: App, c: Command) -> bool {
    match a.focus {
        Focus::Tree => if a.selected > 0 {
            preview_requested(App { selected: (a.selected - 1) as usize, ..a }, b, c)
        } else {
            b == a && c is Idle
        },
        Focus::Reminders => c is Idle && b == (App {
            rem_selected: if a.rem_selected > 0 {
                (a.rem_selected - 1) as usize
            } else {
                0
            },
            ..a
        }),
    }
}

impl App {
    /// Points the preview at the selected note: asks for its text, or
    /// empties the preview when no note is selected.
    fn request_preview(&mut self) -> (c: Command)
        requires
            old(self).wf(),
        ensures
            final(self).wf(),
            preview_requested(*old(self), *final(self), c),
    {
        match self.selected_file() {
            Some(path) => {
                self.preview_is_md = notes::is_markdown(path.as_str());
                self.awaiting = Awaiting::Preview(path.clone());
                Command::ReadPreview(path)
            },
            None => {
                self.preview = String::new();
                self.preview_is_md = false;
                Command::Idle
            },
        }
    }

    fn move_down(&mut self) -> (c: Command)
        requires
            old(self).wf(),
        ensures
            final(self).wf(),
            move_down_post(*old(self), *final(self), c),
    {
        match self.focus {
            Focus::Tree => {
                let n = self.list_len();
                if self.selected < usize::MAX && self.selected + 1 < n {
                    self.selected = self.selected + 1;
                    return self.request_preview();
                }
                Command::Idle
            },
            Focus::Reminders => {
                let n = self.reminders.len();
                if self.rem_selected < usize::MAX && self.rem_selected + 1 < n {
                    self.rem_selected = self.rem_selected + 1;
                }
                Command::Idle
            },
        }
    }

    fn move_up(&mut self) -> (c: Command)
        requires
            old(self).wf(),
        ensures
            final(self).wf(),
            move_up_post(*old(self), *final(self), c),
    {
        match self.focus {
            Focus::Tree => {
                if self.selected > 0 {
                    self.selected = self.selected - 1;
                    return self.request_preview();
                }
                Command::Idle
            },
            Focus::Reminders => {
                self.rem_selected = if self.rem_selected > 0 {
                    self.rem_selected - 1
                } else {
                    0
                };
                Command::Idle
            },
        }
    }
}

} // verus!

verus! {

/// The note indices of search hits.
pub open spec fn hit_files(r: Seq<SearchHit>) -> Seq<usize> {
    r.map_values(|h: SearchHit| h.file)
}

/// Every label fits the fuzzy matcher (at most `u32::MAX` characters).
pub open spec fn labels_fit(labels: Seq<String>) -> bool {
    forall|i: int| 0 <= i < labels.len() ==> (#[trigger] labels[i])@.len() <= u32::MAX
}

/// Whether a filename search for `search` is scored: the query is short
/// enough for the matcher and every label fits it.
pub open spec fn name_search_fits(search: Seq<char>, labels: Seq<String>) -> bool {
    fuzzy::word_count(search) <= fuzzy::MAX_QUERY_WORDS && labels_fit(labels)
}

/// `r` are the filename-search hits of state `a`: the labels ranked by
/// fuzzy score, without snippets (none while not searching, or when the
/// query has too many words or a label is too long for the matcher).
pub open spec fn name_results(a: App, r: Seq<SearchHit>) -> bool {
    &&& forall|k: int| 0 <= k < r.len() ==> (#[trigger] r[k]).snippet is None
    &&& if a.searching() && name_search_fits(a.search@, a.file_labels@) {
        fuzzy::is_ranking(fuzzy::scores_of(a.search@, a.file_labels@), hit_files(r))
    } else {
        r.len() == 0
    }
}

/// A search hit as plain values, with its snippet.
pub open spec fn content_hit_view(h: SearchHit) -> (usize, Seq<char>) {
    (h.file, h.snippet->0@)
}

/// `r` are the content-search hits for `search` over the note texts
/// `contents`.
pub open spec fn content_results(search: Seq<char>, contents: Seq<Option<Seq<char>>>, r: Seq<SearchHit>) -> bool {
    &&& forall|k: int| 0 <= k < r.len() ==> (#[trigger] r[k]).snippet is Some
    &&& if search.len() == 0 {
        r.len() == 0
    } else {
        r.map_values(|h: SearchHit| content_hit_view(h)) == content::hits_upto(
            crate::text::lowercase(search),
            contents,
            contents.len() as int,
        )
    }
}

/// `a` with the selection reset to the top when it is past the list.
pub open spec fn clamped(a: App) -> App {
    App {
        selected: if a.selected >= a.list_len_spec() {
            0
        } else {
            a.selected
        },
        ..a
    }
}

/// Index of the first row whose path is `p` (as a `Path`: the same
/// components).
pub open spec fn find_row(v: Seq<TreeNode>, p: Seq<char>) -> Option<int>
    decreases v.len(),
{
    if v.len() == 0 {
        None
    } else if path_components(v[0].path@) == path_components(p) {
        Some(0)
    } else {
        match find_row(v.subrange(1, v.len() as int), p) {
            Some(i) => Some(i + 1),
            None => None,
        }
    }
}

/// `a` once `after` has been carried out.
pub open spec fn after_state(a: App, after: After) -> App {
    match after {
        After::Nothing => a,
        After::Select(p, s) => App {
            selected: match find_row(a.visible@, p@) {
                Some(i) => i as usize,
                None => a.selected,
            },
            status: s,
            ..a
        },
        After::Status(s) => App { status: s, ..a },
    }
}

/// The end of a search update: the follow-up of a reload, if any, then the
/// preview.
pub open spec fn finish_post(a: App, cont: Option<After>, b: App, c: Command) -> bool {
    preview_requested(
        match cont {
            None => a,
            Some(after) => after_state(a, after),
        },
        b,
        c,
    )
}

/// Recomputing the search hits (by name, or by content once the texts are
/// read), then the follow-up and the preview.
pub open spec fn recompute_post(a: App, cont: Option<After>, b: App, c: Command) -> bool {
    if a.search_scope == SearchScope::Content && a.searching() {
        c is ReadContents && b == (App { awaiting: Awaiting::Contents(cont), ..a })
    } else {
        &&& if a.search_scope == SearchScope::Name {
            name_results(a, b.results@)
        } else {
            b.results@.len() == 0
        }
        &&& finish_post(clamped(App { results: b.results, ..a }), cont, b, c)
    }
}

/// The texts of the notes arrived: content hits (none if the texts do not
/// match the note list), then the follow-up and the preview.
pub open spec fn contents_post(
    a: App,
    cont: Option<After>,
    contents: Seq<Option<String>>,
    b: App,
    c: Command,
) -> bool {
    &&& if contents.len() == a.files@.len() {
        content_results(a.search@, content::contents_view(contents), b.results@)
    } else {
        b.results@.len() == 0
    }
    &&& finish_post(clamped(App { results: b.results, awaiting: Awaiting::Nothing, ..a }), cont, b, c)
}

proof fn lemma_find_row_at(v: Seq<TreeNode>, p: Seq<char>, k: int)
    requires
        0 <= k <= v.len(),
        forall|i: int| 0 <= i < k ==> path_components((#[trigger] v[i]).path@) != path_components(p),
    ensures
        k < v.len() && path_components(v[k].path@) == path_components(p) ==> find_row(v, p) == Some(k),
        k == v.len() ==> find_row(v, p) is None,
    decreases k,
{
    if k > 0 {
        let t = v.subrange(1, v.len() as int);
        assert forall|i: int| 0 <= i < k - 1 implies path_components((#[trigger] t[i]).path@) != path_components(p) by {
            assert(t[i] == v[i + 1]);
        }
        lemma_find_row_at(t, p, k - 1);
        if k < v.len() {
            assert(t[k - 1] == v[k]);
        }
    } else if v.len() > 0 {
    }
}

proof fn lemma_hits_in_range(needle: Seq<char>, contents: Seq<Option<Seq<char>>>, n: int)
    requires
        0 <= n <= contents.len(),
    ensures
        forall|k: int| 0 <= k < content::hits_upto(needle, contents, n).len() ==> (#[trigger] content::hits_upto(needle, contents, n)[k]).0 < n,
    decreases n,
{
    if n > 0 && n <= contents.len() {
        lemma_hits_in_range(needle, contents, n - 1);
        let prev = content::hits_upto(needle, contents, n - 1);
        let cur = content::hits_upto(needle, contents, n);
        assert forall|k: int| 0 <= k < cur.len() implies (#[trigger] cur[k]).0 < n by {
            if k < prev.len() {
                match contents[n - 1] {
                    Some(text) => match content::first_match(lines_spec(text), needle) {
                        Some(s) => assert(cur[k] == prev.push(((n - 1) as usize, s))[k]),
                        None => {},
                    },
                    None => {},
                }
            }
        }
    }
}

impl App {
    /// Index of the first tree row at `path`.
    fn find_row(&self, path: &String) -> (r: Option<usize>)
        ensures
            r matches Some(i) ==> find_row(self.visible@, path@) == Some(i as int),
            r is None ==> find_row(self.visible@, path@) is None,
    {
        let mut i: usize = 0;
        while i < self.visible.len()
            invariant
                i <= self.visible@.len(),
                forall|j: int| 0 <= j < i ==> path_components((#[trigger] self.visible@[j]).path@) != path_components(path@),
            decreases self.visible@.len() - i,
        {
            if same_path(self.visible[i].path.as_str(), path.as_str()) {
                proof {
                    lemma_find_row_at(self.visible@, path@, i as int);
                }
                return Some(i);
            }
            i = i + 1;
        }
        proof {
            lemma_find_row_at(self.visible@, path@, i as int);
        }
        None
    }

    fn apply_after(&mut self, after: After)
        requires
            old(self).wf(),
        ensures
            final(self).wf(),
            *final(self) == after_state(*old(self), after),
    {
        match after {
            After::Nothing => {},
            After::Select(p, s) => {
                if let Some(i) = self.find_row(&p) {
                    self.selected = i;
                }
                self.status = s;
            },
            After::Status(s) => {
                self.status = s;
            },
        }
    }

    fn finish(&mut self, cont: Option<After>) -> (c: Command)
        requires
            old(self).wf(),
        ensures
            final(self).wf(),
            finish_post(*old(self), cont, *final(self), c),
    {
        match cont {
            None => {},
            Some(after) => self.apply_after(after),
        }
        self.request_preview()
    }

    fn clamp_selection(&mut self)
        requires
            old(self).wf(),
        ensures
            final(self).wf(),
            *final(self) == clamped(*old(self)),
    {
        if self.selected >= self.list_len() {
            self.selected = 0;
        }
    }

    /// Whether the fuzzy matcher takes the current query and labels.
    fn name_search_fits(&self) -> (b: bool)
        ensures
            b == name_search_fits(self.search@, self.file_labels@),
    {
        if fuzzy::count_words(self.search.as_str()) > fuzzy::MAX_QUERY_WORDS {
            return false;
        }
        let mut i: usize = 0;
        while i < self.file_labels.len()
            invariant
                i <= self.file_labels@.len(),
                forall|j: int| 0 <= j < i ==> (#[trigger] self.file_labels@[j])@.len() <= u32::MAX,
            decreases self.file_labels@.len() - i,
        {
            if chars_of(self.file_labels[i].as_str()).len() > u32::MAX as usize {
                return false;
            }
            i = i + 1;
        }
        true
    }

    /// Recomputes the search hits for the current query and scope, then
    /// carries out `cont` (the rest of a reload) and updates the preview.
    fn recompute_search(&mut self, cont: Option<After>) -> (c: Command)
        requires
            old(self).wf(),
        ensures
            final(self).wf(),
            recompute_post(*old(self), cont, *final(self), c),
    {
        let searching = self.is_searching();
        match self.search_scope {
            SearchScope::Content => {
                if searching {
                    self.awaiting = Awaiting::Contents(cont);
                    return Command::ReadContents;
                }
                self.results = Vec::new();
            },
            SearchScope::Name => {
                if searching && self.name_search_fits() {
                    let ranked = fuzzy::filter(self.search.as_str(), &self.file_labels);
                    let mut hits: Vec<SearchHit> = Vec::new();
                    let mut k: usize = 0;
                    while k < ranked.len()
                        invariant
                            k <= ranked@.len(),
                            hits@.len() == k,
                            forall|j: int| 0 <= j < k ==> (#[trigger] hits@[j]).file == ranked@[j] && hits@[j].snippet is None,
                        decreases ranked@.len() - k,
                    {
                        hits.push(SearchHit { file: ranked[k], snippet: None });
                        k = k + 1;
                    }
                    assert(hit_files(hits@) =~= ranked@);
                    self.results = hits;
                } else {
                    self.results = Vec::new();
                }
            },
        }
        self.clamp_selection();
        self.finish(cont)
    }

    /// The note texts for a content search arrived.
    fn contents_read(&mut self, cont: Option<After>, contents: Vec<Option<String>>) -> (c: Command)
        requires
            old(self).wf(),
        ensures
            final(self).wf(),
            contents_post(*old(self), cont, contents@, *final(self), c),
    {
        let mut hits: Vec<SearchHit> = Vec::new();
        if contents.len() == self.files.len() {
            let found = content::search(self.search.as_str(), &contents);
            proof {
                lemma_hits_in_range(crate::text::lowercase(self.search@), content::contents_view(contents@), contents@.len() as int);
            }
            let ghost fv = found@.map_values(|h: content::ContentHit| content::hit_view(h));
            let mut k: usize = 0;
            while k < found.len()
                invariant
                    k <= found@.len(),
                    fv == found@.map_values(|h: content::ContentHit| content::hit_view(h)),
                    hits@.len() == k,
                    forall|j: int| 0 <= j < k ==> (#[trigger] hits@[j]).snippet is Some && content_hit_view(hits@[j]) == fv[j],
                decreases found@.len() - k,
            {
                hits.push(SearchHit { file: found[k].file, snippet: Some(found[k].snippet.clone()) });
                k = k + 1;
            }
            proof {
                assert(hits@.map_values(|h: SearchHit| content_hit_view(h)) =~= fv);
            }
            self.results = hits;
        } else {
            self.results = hits;
        }
        self.awaiting = Awaiting::Nothing;
        self.clamp_selection();
        self.finish(cont)
    }
}

} // verus!

verus! {

/// `s` without its last character, if any (`String::pop`).
pub open spec fn popped(s: Seq<char>) -> Seq<char> {
    if s.len() > 0 {
        s.drop_last()
    } else {
        s
    }
}

/// The directory a new note or folder goes in: the notes root while
/// searching; otherwise the selected directory, the selected note's
/// directory, or the root when nothing is selected.
pub open spec fn new_note_dir_spec(a: App) -> Seq<char> {
    if a.searching() {
        a.tree.root_view()
    } else if a.selected < a.visible@.len() {
        let n = a.visible@[a.selected as int];
        if n.is_dir {
            n.path@
        } else {
            match path_parent(n.path@) {
                Some(p) => p,
                None => Seq::empty(),
            }
        }
    } else {
        a.tree.root_view()
    }
}

/// The status message for a refused note or folder name.
pub open spec fn name_error_message(name: Seq<char>) -> Seq<char> {
    if trim_spec(name).len() == 0 {
        "name is empty"@
    } else {
        "name '"@ + trim_spec(name) + "' must not contain '/' or '..'"@
    }
}

/// The file name shown in the rename prompt (empty when the path has none).
pub open spec fn file_name_or_empty(p: Seq<char>) -> Seq<char> {
    match path_file_name(p) {
        Some(n) => n,
        None => Seq::empty(),
    }
}

/// Opening the selected note in the editor, then reloading.
pub open spec fn edit_post(a: App, b: App, c: Command) -> bool {
    match a.selected_file_spec() {
        Some(p) => c matches Command::OpenEditor(q) && q@ == p && b == (App {
            awaiting: Awaiting::Editor(After::Nothing),
            ..a
        }),
        None => b == a && c is Idle,
    }
}

/// Starting a reload.
pub open spec fn reload_post(a: App, b: App, c: Command) -> bool {
    c is Reload && b == (App { awaiting: Awaiting::Loaded(After::Nothing), ..a })
}

/// Starting a prompt of the given kind with an empty input.
pub open spec fn begin_prompt_post(a: App, kind: PromptKind, b: App, c: Command) -> bool {
    &&& c is Idle
    &&& b.prompt_input@ == Seq::<char>::empty()
    &&& b.status@ == Seq::<char>::empty()
    &&& b == (App {
        prompt_kind: kind,
        prompt_target: None,
        prompt_input: b.prompt_input,
        status: b.status,
        mode: Mode::Prompt,
        ..a
    })
}

/// Key handling in normal mode.
pub open spec fn normal_key_post(a: App, key: Key, b: App, c: Command) -> bool {
    if key == Key::Char('q') || key == Key::Esc {
        b == (App { should_quit: true, ..a }) && c is Idle
    } else if key == Key::Char('j') || key == Key::Down {
        move_down_post(a, b, c)
    } else if key == Key::Char('k') || key == Key::Up {
        move_up_post(a, b, c)
    } else if key == Key::Tab {
        c is Idle && b == (App {
            focus: if a.focus == Focus::Tree {
                Focus::Reminders
            } else {
                Focus::Tree
            },
            ..a
        })
    } else if key == Key::Char('/') {
        c is Idle && b == (App { mode: Mode::Search, focus: Focus::Tree, selected: 0, ..a })
    } else if key == Key::Char('a') {
        &&& c is Idle
        &&& b.input_text@ == Seq::<char>::empty()
        &&& b.input_due@ == Seq::<char>::empty()
        &&& b.status@ == Seq::<char>::empty()
        &&& b == (App {
            mode: Mode::AddReminder,
            add_stage: AddStage::Text,
            input_text: b.input_text,
            input_due: b.input_due,
            status: b.status,
            ..a
        })
    } else if key == Key::Char('d') {
        if a.rem_selected < a.reminders@.len() {
            &&& c matches Command::DismissReminder(id) && id == a.reminders@[a.rem_selected as int].id
            &&& b.awaiting matches Awaiting::Reminders(s) && s@ == "reminder dismissed"@
            &&& b == (App { awaiting: b.awaiting, ..a })
        } else {
            b == a && c is Idle
        }
    } else if key == Key::Char('e') {
        edit_post(a, b, c)
    } else if key == Key::Char('n') {
        begin_prompt_post(a, PromptKind::NewNote, b, c)
    } else if key == Key::Char('N') {
        begin_prompt_post(a, PromptKind::NewFolder, b, c)
    } else if key == Key::Char('R') {
        match a.selected_file_spec() {
            None => c is Idle && b.status@ == "select a file to rename"@ && b == (App {
                status: b.status,
                ..a
            }),
            Some(p) => {
                &&& c is Idle
                &&& b.prompt_input@ == file_name_or_empty(p)
                &&& b.prompt_target matches Some(t) && t@ == p
                &&& b.status@ == Seq::<char>::empty()
                &&& b == (App {
                    prompt_kind: PromptKind::Rename,
                    prompt_input: b.prompt_input,
                    prompt_target: b.prompt_target,
                    status: b.status,
                    mode: Mode::Prompt,
                    ..a
                })
            },
        }
    } else if key == Key::Char('D') {
        match a.selected_file_spec() {
            None => c is Idle && b.status@ == "select a file to delete"@ && b == (App {
                status: b.status,
                ..a
            }),
            Some(p) => {
                &&& c is Idle
                &&& b.delete_target matches Some(t) && t@ == p
                &&& b == (App { delete_target: b.delete_target, mode: Mode::Confirm, ..a })
            },
        }
    } else if key == Key::Char('r') {
        reload_post(a, b, c)
    } else if key == Key::Enter || key == Key::Char('l') {
        if a.searching() {
            edit_post(a, b, c)
        } else if a.selected < a.visible@.len() {
            let node = a.visible@[a.selected as int];
            if node.is_dir {
                &&& c is Reload
                &&& b.tree.root_view() == a.tree.root_view()
                &&& b.tree.expanded_set() == notes::toggled(a.tree.expanded_set(), path_components(node.path@))
                &&& b == (App { tree: b.tree, awaiting: Awaiting::Loaded(After::Nothing), ..a })
            } else {
                edit_post(a, b, c)
            }
        } else {
            b == a && c is Idle
        }
    } else {
        b == a && c is Idle
    }
}

/// Key handling in search mode.
pub open spec fn search_key_post(a: App, key: Key, b: App, c: Command) -> bool {
    match key {
        Key::Esc => {
            &&& b.search@ == Seq::<char>::empty()
            &&& b.results@.len() == 0
            &&& preview_requested(
                App { search: b.search, results: b.results, mode: Mode::Normal, selected: 0, ..a },
                b,
                c,
            )
        },
        Key::Enter => c is Idle && b == (App { mode: Mode::Normal, ..a }),
        Key::Tab => recompute_post(
            App {
                search_scope: if a.search_scope == SearchScope::Name {
                    SearchScope::Content
                } else {
                    SearchScope::Name
                },
                ..a
            },
            None,
            b,
            c,
        ),
        Key::Down => move_down_post(a, b, c),
        Key::Up => move_up_post(a, b, c),
        Key::Backspace => b.search@ == popped(a.search@) && recompute_post(
            App { search: b.search, ..a },
            None,
            b,
            c,
        ),
        Key::Char(ch) => b.search@ == a.search@.push(ch) && recompute_post(
            App { search: b.search, ..a },
            None,
            b,
            c,
        ),
        Key::Other => b == a && c is Idle,
    }
}

/// Enter in the reminder popup: from the text to the due date, or saving.
pub open spec fn advance_add_post(a: App, b: App, c: Command) -> bool {
    match a.add_stage {
        AddStage::Text => c is Idle && if trim_spec(a.input_text@).len() == 0 {
            b.status@ == "reminder text is empty"@ && b == (App { status: b.status, ..a })
        } else {
            b == (App { add_stage: AddStage::Due, ..a })
        },
        AddStage::Due => match parse_due_spec(a.input_due@) {
            Err(m) => c is Idle && b.status@ == m && b == (App { status: b.status, ..a }),
            Ok(d) => {
                &&& c matches Command::AddReminder(t, dd) && t@ == trim_spec(a.input_text@) && dd == d
                &&& b.awaiting matches Awaiting::Reminders(s) && s@ == "reminder added"@
                &&& b == (App { mode: Mode::Normal, awaiting: b.awaiting, ..a })
            },
        },
    }
}

/// Key handling in the reminder popup.
pub open spec fn add_key_post(a: App, key: Key, b: App, c: Command) -> bool {
    match key {
        Key::Esc => c is Idle && b.status@ == Seq::<char>::empty() && b == (App {
            mode: Mode::Normal,
            status: b.status,
            ..a
        }),
        Key::Enter => advance_add_post(a, b, c),
        Key::Backspace => c is Idle && if a.add_stage == AddStage::Text {
            b.input_text@ == popped(a.input_text@) && b == (App { input_text: b.input_text, ..a })
        } else {
            b.input_due@ == popped(a.input_due@) && b == (App { input_due: b.input_due, ..a })
        },
        Key::Char(ch) => c is Idle && if a.add_stage == AddStage::Text {
            b.input_text@ == a.input_text@.push(ch) && b == (App { input_text: b.input_text, ..a })
        } else {
            b.input_due@ == a.input_due@.push(ch) && b == (App { input_due: b.input_due, ..a })
        },
        _ => b == a && c is Idle,
    }
}

/// A refused name shows its message.
pub open spec fn refused_post(a: App, name: Seq<char>, b: App, c: Command) -> bool {
    c is Idle && b.status@ == name_error_message(name) && b == (App { status: b.status, ..a })
}

/// Enter in a prompt: create the note or folder, or rename.
pub open spec fn submit_post(a: App, b: App, c: Command) -> bool {
    match a.prompt_kind {
        PromptKind::NewNote => match fs_ops::note_path_spec(new_note_dir_spec(a), a.prompt_input@) {
            Err(_) => refused_post(a, a.prompt_input@, b, c),
            Ok(p) => c matches Command::CreateNote(q) && q@ == p && b == (App {
                awaiting: Awaiting::NoteCreated(q),
                ..a
            }),
        },
        PromptKind::NewFolder => match fs_ops::folder_path_spec(new_note_dir_spec(a), a.prompt_input@) {
            Err(_) => refused_post(a, a.prompt_input@, b, c),
            Ok(p) => c matches Command::CreateFolder(q) && q@ == p && b == (App {
                awaiting: Awaiting::FolderCreated(q),
                ..a
            }),
        },
        PromptKind::Rename => match a.prompt_target {
            None => c is Idle && b == (App { mode: Mode::Normal, ..a }),
            Some(src) => match fs_ops::rename_target_spec(src@, a.prompt_input@) {
                Err(_) => refused_post(a, a.prompt_input@, b, c),
                Ok(p) => c matches Command::Rename(f, q) && f@ == src@ && q@ == p && b == (App {
                    awaiting: Awaiting::Renamed(q),
                    ..a
                }),
            },
        },
    }
}

/// Key handling in a prompt.
pub open spec fn prompt_key_post(a: App, key: Key, b: App, c: Command) -> bool {
    match key {
        Key::Esc => c is Idle && b.status@ == Seq::<char>::empty() && b == (App {
            mode: Mode::Normal,
            status: b.status,
            ..a
        }),
        Key::Enter => submit_post(a, b, c),
        Key::Backspace => c is Idle && b.prompt_input@ == popped(a.prompt_input@) && b == (App {
            prompt_input: b.prompt_input,
            ..a
        }),
        Key::Char(ch) => c is Idle && b.prompt_input@ == a.prompt_input@.push(ch) && b == (App {
            prompt_input: b.prompt_input,
            ..a
        }),
        _ => b == a && c is Idle,
    }
}

/// Key handling in the delete confirmation: `y` deletes, anything else
/// cancels.
pub open spec fn confirm_key_post(a: App, key: Key, b: App, c: Command) -> bool {
    if key == Key::Char('y') || key == Key::Char('Y') {
        match a.delete_target {
            Some(p) => c matches Command::Delete(q) && q@ == p@ && b == (App {
                delete_target: None,
                awaiting: Awaiting::Deleted,
                ..a
            }),
            None => c is Idle && b == (App { mode: Mode::Normal, ..a }),
        }
    } else {
        c is Idle && b == (App { mode: Mode::Normal, delete_target: None, ..a })
    }
}

/// A key press, routed by mode.
pub open spec fn key_post(a: App, key: Key, b: App, c: Command) -> bool {
    match a.mode {
        Mode::Normal => normal_key_post(a, key, b, c),
        Mode::Search => search_key_post(a, key, b, c),
        Mode::AddReminder => add_key_post(a, key, b, c),
        Mode::Prompt => prompt_key_post(a, key, b, c),
        Mode::Confirm => confirm_key_post(a, key, b, c),
    }
}

} // verus!

verus! {

/// The text of a static message.
fn message(s: &str) -> (r: String)
    ensures
        r@ == s@,
{
    String::from_str(s)
}

impl App {
    fn edit_selected(&mut self) -> (c: Command)
        requires
            old(self).wf(),
        ensures
            final(self).wf(),
            edit_post(*old(self), *final(self), c),
    {
        match self.selected_file() {
            Some(path) => {
                self.awaiting = Awaiting::Editor(After::Nothing);
                Command::OpenEditor(path)
            },
            None => Command::Idle,
        }
    }

    fn start_reload(&mut self) -> (c: Command)
        requires
            old(self).wf(),
        ensures
            final(self).wf(),
            reload_post(*old(self), *final(self), c),
    {
        self.awaiting = Awaiting::Loaded(After::Nothing);
        Command::Reload
    }

    fn begin_prompt(&mut self, kind: PromptKind) -> (c: Command)
        requires
            old(self).wf(),
        ensures
            final(self).wf(),
            begin_prompt_post(*old(self), kind, *final(self), c),
    {
        self.prompt_kind = kind;
        self.prompt_target = None;
        self.prompt_input = String::new();
        self.status = String::new();
        self.mode = Mode::Prompt;
        Command::Idle
    }

    fn on_normal_key(&mut self, key: Key) -> (c: Command)
        requires
            old(self).wf(),
        ensures
            final(self).wf(),
            normal_key_post(*old(self), key, *final(self), c),
    {
        if key == Key::Char('q') || key == Key::Esc {
            self.should_quit = true;
            Command::Idle
        } else if key == Key::Char('j') || key == Key::Down {
            self.move_down()
        } else if key == Key::Char('k') || key == Key::Up {
            self.move_up()
        } else if key == Key::Tab {
            self.focus = match self.focus {
                Focus::Tree => Focus::Reminders,
                Focus::Reminders => Focus::Tree,
            };
            Command::Idle
        } else if key == Key::Char('/') {
            self.mode = Mode::Search;
            self.focus = Focus::Tree;
            self.selected = 0;
            Command::Idle
        } else if key == Key::Char('a') {
            self.mode = Mode::AddReminder;
            self.add_stage = AddStage::Text;
            self.input_text = String::new();
            self.input_due = String::new();
            self.status = String::new();
            Command::Idle
        } else if key == Key::Char('d') {
            if self.rem_selected < self.reminders.len() {
                let id = self.reminders[self.rem_selected].id;
                self.awaiting = Awaiting::Reminders(message("reminder dismissed"));
                Command::DismissReminder(id)
            } else {
                Command::Idle
            }
        } else if key == Key::Char('e') {
            self.edit_selected()
        } else if key == Key::Char('n') {
            self.begin_prompt(PromptKind::NewNote)
        } else if key == Key::Char('N') {
            self.begin_prompt(PromptKind::NewFolder)
        } else if key == Key::Char('R') {
            match self.selected_file() {
                None => {
                    self.status = message("select a file to rename");
                },
                Some(path) => {
                    self.prompt_kind = PromptKind::Rename;
                    self.prompt_input = match file_name(path.as_str()) {
                        Some(n) => n,
                        None => String::new(),
                    };
                    self.prompt_target = Some(path);
                    self.status = String::new();
                    self.mode = Mode::Prompt;
                },
            }
            Command::Idle
        } else if key == Key::Char('D') {
            match self.selected_file() {
                Some(path) => {
                    self.delete_target = Some(path);
                    self.mode = Mode::Confirm;
                },
                None => {
                    self.status = message("select a file to delete");
                },
            }
            Command::Idle
        } else if key == Key::Char('r') {
            self.start_reload()
        } else if key == Key::Enter || key == Key::Char('l') {
            if self.is_searching() {
                return self.edit_selected();
            }
            if self.selected < self.visible.len() {
                if self.visible[self.selected].is_dir {
                    let path = self.visible[self.selected].path.clone();
                    self.tree.toggle(path.as_str());
                    self.awaiting = Awaiting::Loaded(After::Nothing);
                    Command::Reload
                } else {
                    self.edit_selected()
                }
            } else {
                Command::Idle
            }
        } else {
            Command::Idle
        }
    }

    fn on_search_key(&mut self, key: Key) -> (c: Command)
        requires
            old(self).wf(),
        ensures
            final(self).wf(),
            search_key_post(*old(self), key, *final(self), c),
    {
        match key {
            Key::Esc => {
                self.search = String::new();
                self.results = Vec::new();
                self.mode = Mode::Normal;
                self.selected = 0;
                self.request_preview()
            },
            Key::Enter => {
                self.mode = Mode::Normal;
                Command::Idle
            },
            Key::Tab => {
                self.search_scope = match self.search_scope {
                    SearchScope::Name => SearchScope::Content,
                    SearchScope::Content => SearchScope::Name,
                };
                self.recompute_search(None)
            },
            Key::Down => self.move_down(),
            Key::Up => self.move_up(),
            Key::Backspace => {
                crate::text::pop_char(&mut self.search);
                self.recompute_search(None)
            },
            Key::Char(ch) => {
                crate::text::push_char(&mut self.search, ch);
                self.recompute_search(None)
            },
            Key::Other => Command::Idle,
        }
    }

    fn advance_add(&mut self) -> (c: Command)
        requires
            old(self).wf(),
        ensures
            final(self).wf(),
            advance_add_post(*old(self), *final(self), c),
    {
        match self.add_stage {
            AddStage::Text => {
                let t = trim_chars(&chars_of(self.input_text.as_str()));
                if t.len() == 0 {
                    self.status = message("reminder text is empty");
                } else {
                    self.add_stage = AddStage::Due;
                }
                Command::Idle
            },
            AddStage::Due => {
                match parse_due(self.input_due.as_str()) {
                    Err(m) => {
                        self.status = m;
                        Command::Idle
                    },
                    Ok(due) => {
                        let t = string_of(trim_chars(&chars_of(self.input_text.as_str())).as_slice());
                        self.mode = Mode::Normal;
                        self.awaiting = Awaiting::Reminders(message("reminder added"));
                        Command::AddReminder(t, due)
                    },
                }
            },
        }
    }

    fn on_add_key(&mut self, key: Key) -> (c: Command)
        requires
            old(self).wf(),
        ensures
            final(self).wf(),
            add_key_post(*old(self), key, *final(self), c),
    {
        match key {
            Key::Esc => {
                self.mode = Mode::Normal;
                self.status = String::new();
                Command::Idle
            },
            Key::Enter => self.advance_add(),
            Key::Backspace => {
                match self.add_stage {
                    AddStage::Text => crate::text::pop_char(&mut self.input_text),
                    AddStage::Due => crate::text::pop_char(&mut self.input_due),
                }
                Command::Idle
            },
            Key::Char(ch) => {
                match self.add_stage {
                    AddStage::Text => crate::text::push_char(&mut self.input_text, ch),
                    AddStage::Due => crate::text::push_char(&mut self.input_due, ch),
                }
                Command::Idle
            },
            _ => Command::Idle,
        }
    }

    /// The directory a new note or folder goes in.
    fn new_note_dir(&self) -> (d: String)
        ensures
            d@ == new_note_dir_spec(*self),
    {
        if self.is_searching() {
            return String::from_str(self.tree.root());
        }
        if self.selected < self.visible.len() {
            let node = &self.visible[self.selected];
            if node.is_dir {
                return node.path.clone();
            }
            return match parent(node.path.as_str()) {
                Some(p) => p,
                None => String::new(),
            };
        }
        String::from_str(self.tree.root())
    }

    fn refuse_name(&mut self, e: FsError) -> (c: Command)
        requires
            old(self).wf(),
            e matches FsError::EmptyName ==> trim_spec(old(self).prompt_input@).len() == 0,
            e matches FsError::BadName(n) ==> n@ == trim_spec(old(self).prompt_input@) && trim_spec(
                old(self).prompt_input@,
            ).len() > 0,
            e is EmptyName || e is BadName,
        ensures
            final(self).wf(),
            refused_post(*old(self), old(self).prompt_input@, *final(self), c),
    {
        self.status = e.message();
        Command::Idle
    }

    fn submit_prompt(&mut self) -> (c: Command)
        requires
            old(self).wf(),
        ensures
            final(self).wf(),
            submit_post(*old(self), *final(self), c),
    {
        match self.prompt_kind {
            PromptKind::NewNote => {
                let dir = self.new_note_dir();
                match fs_ops::note_path(dir.as_str(), self.prompt_input.as_str()) {
                    Err(e) => self.refuse_name(e),
                    Ok(path) => {
                        self.awaiting = Awaiting::NoteCreated(path.clone());
                        Command::CreateNote(path)
                    },
                }
            },
            PromptKind::NewFolder => {
                let dir = self.new_note_dir();
                match fs_ops::folder_path(dir.as_str(), self.prompt_input.as_str()) {
                    Err(e) => self.refuse_name(e),
                    Ok(path) => {
                        self.awaiting = Awaiting::FolderCreated(path.clone());
                        Command::CreateFolder(path)
                    },
                }
            },
            PromptKind::Rename => {
                match &self.prompt_target {
                    None => {
                        self.mode = Mode::Normal;
                        Command::Idle
                    },
                    Some(src) => {
                        let src = src.clone();
                        match fs_ops::rename_target(src.as_str(), self.prompt_input.as_str()) {
                            Err(e) => self.refuse_name(e),
                            Ok(target) => {
                                self.awaiting = Awaiting::Renamed(target.clone());
                                Command::Rename(src, target)
                            },
                        }
                    },
                }
            },
        }
    }

    fn on_prompt_key(&mut self, key: Key) -> (c: Command)
        requires
            old(self).wf(),
        ensures
            final(self).wf(),
            prompt_key_post(*old(self), key, *final(self), c),
    {
        match key {
            Key::Esc => {
                self.mode = Mode::Normal;
                self.status = String::new();
                Command::Idle
            },
            Key::Enter => self.submit_prompt(),
            Key::Backspace => {
                crate::text::pop_char(&mut self.prompt_input);
                Command::Idle
            },
            Key::Char(ch) => {
                crate::text::push_char(&mut self.prompt_input, ch);
                Command::Idle
            },
            _ => Command::Idle,
        }
    }

    fn on_confirm_key(&mut self, key: Key) -> (c: Command)
        requires
            old(self).wf(),
        ensures
            final(self).wf(),
            confirm_key_post(*old(self), key, *final(self), c),
    {
        if key == Key::Char('y') || key == Key::Char('Y') {
            match self.delete_target.take() {
                Some(path) => {
                    self.awaiting = Awaiting::Deleted;
                    Command::Delete(path)
                },
                None => {
                    self.mode = Mode::Normal;
                    Command::Idle
                },
            }
        } else {
            self.mode = Mode::Normal;
            self.delete_target = None;
            Command::Idle
        }
    }

    fn on_key(&mut self, key: Key) -> (c: Command)
        requires
            old(self).wf(),
        ensures
            final(self).wf(),
            key_post(*old(self), key, *final(self), c),
    {
        match self.mode {
            Mode::Normal => self.on_normal_key(key),
            Mode::Search => self.on_search_key(key),
            Mode::AddReminder => self.on_add_key(key),
            Mode::Prompt => self.on_prompt_key(key),
            Mode::Confirm => self.on_confirm_key(key),
        }
    }
}

} // verus!

verus! {

/// A selection moved back onto the last row of a shorter list (0 when the
/// list is empty).
pub open spec fn clamp_to(sel: usize, len: nat) -> usize {
    if sel >= len {
        if len == 0 {
            0
        } else {
            (len - 1) as usize
        }
    } else {
        sel
    }
}

/// The notes directory and reminders arrived: new tree rows (keeping the
/// selection on the list), notes and labels, reminders; then the search is
/// recomputed, the reload's follow-up carried out and the preview updated.
pub open spec fn loaded_post(a: App, after: After, tree: DirNode, rems: Vec<Reminder>, b: App, c: Command) -> bool {
    &&& notes::rows_view(b.visible@) == notes::dir_rows(tree, 0, a.tree.expanded_set())
    &&& b.files@.map_values(|s: String| s@) == notes::notes_under(tree)
    &&& b.file_labels@.len() == b.files@.len()
    &&& forall|i: int|
        0 <= i < b.files@.len() ==> (#[trigger] b.file_labels@[i])@ == relative_label_spec(
            a.tree.root_view(),
            b.files@[i]@,
        )
    &&& b.reminders == rems
    &&& b.rem_selected == clamp_to(a.rem_selected, rems@.len())
    &&& b.awaiting is Contents ==> b.results@.len() == 0
    &&& recompute_post(
        App {
            results: b.results,
            visible: b.visible,
            files: b.files,
            file_labels: b.file_labels,
            reminders: b.reminders,
            rem_selected: b.rem_selected,
            selected: clamp_to(a.selected, b.visible@.len()),
            awaiting: Awaiting::Nothing,
            ..a
        },
        Some(after),
        b,
        c,
    )
}

/// A file operation failed: its message goes to the status line.
pub open spec fn fs_failed_post(a: App, e: FsError, b: App, c: Command) -> bool {
    c is Idle && b.status@ == fs_ops::fs_error_message(e) && b == (App {
        status: b.status,
        awaiting: Awaiting::Nothing,
        ..a
    })
}

/// A file operation succeeded; back to normal mode and a reload whose
/// follow-up selects `path` and shows `status`.
pub open spec fn fs_reload_post(a: App, path: Seq<char>, status: Seq<char>, b: App, c: Command) -> bool {
    &&& c is Reload
    &&& b.awaiting matches Awaiting::Loaded(After::Select(x, s)) && x@ == path && s@ == status
    &&& b == (App { mode: Mode::Normal, awaiting: b.awaiting, ..a })
}

/// One step: a key when nothing is awaited, or the awaited outcome; any
/// other event is ignored.
pub open spec fn step_post(a: App, e: Event, b: App, c: Command) -> bool {
    match (a.awaiting, e) {
        (Awaiting::Nothing, Event::Key(k)) => key_post(a, k, b, c),
        (Awaiting::Loaded(after), Event::Loaded(tree, rems)) => loaded_post(a, after, tree, rems, b, c),
        (Awaiting::Contents(cont), Event::Contents(cs)) => contents_post(a, cont, cs@, b, c),
        (Awaiting::Preview(p), Event::Preview(r)) => {
            &&& c is Idle
            &&& b.preview@ == match r {
                Ok(t) => preview_text_spec(t@),
                Err(m) => unreadable_spec(p@, m@),
            }
            &&& b == (App { preview: b.preview, awaiting: Awaiting::Nothing, ..a })
        },
        (Awaiting::Editor(after), Event::EditorClosed) => c is Reload && b == (App {
            awaiting: Awaiting::Loaded(after),
            ..a
        }),
        (Awaiting::Reminders(s), Event::Reminders(rs)) => c is Idle && b == (App {
            rem_selected: clamp_to(a.rem_selected, rs@.len()),
            reminders: rs,
            status: s,
            awaiting: Awaiting::Nothing,
            ..a
        }),
        (Awaiting::NoteCreated(p), Event::FsDone(r)) => match r {
            Ok(_) => {
                &&& c matches Command::OpenEditor(q) && q@ == p@
                &&& b.awaiting matches Awaiting::Editor(After::Select(x, s)) && x@ == p@ && s@
                    == "note created"@
                &&& b == (App { mode: Mode::Normal, awaiting: b.awaiting, ..a })
            },
            Err(e) => fs_failed_post(a, e, b, c),
        },
        (Awaiting::FolderCreated(p), Event::FsDone(r)) => match r {
            Ok(_) => fs_reload_post(a, p@, "folder created"@, b, c),
            Err(e) => fs_failed_post(a, e, b, c),
        },
        (Awaiting::Renamed(p), Event::FsDone(r)) => match r {
            Ok(_) => fs_reload_post(a, p@, "renamed"@, b, c),
            Err(e) => fs_failed_post(a, e, b, c),
        },
        (Awaiting::Deleted, Event::FsDone(r)) => match r {
            Ok(_) => {
                &&& c is Reload
                &&& b.awaiting matches Awaiting::Loaded(After::Status(s)) && s@ == "deleted"@
                &&& b == (App { mode: Mode::Normal, awaiting: b.awaiting, ..a })
            },
            Err(e) => fs_failed_post(a, e, b, c),
        },
        _ => b == a && c is Idle,
    }
}

impl App {
    fn refresh_tree(&mut self, tree: &DirNode)
        requires
            old(self).wf(),
        ensures
            final(self).wf(),
            notes::rows_view(final(self).visible@) == notes::dir_rows(*tree, 0, old(self).tree.expanded_set()),
            *final(self) == (App {
                visible: final(self).visible,
                selected: clamp_to(old(self).selected, final(self).visible@.len()),
                ..*old(self)
            }),
    {
        self.visible = self.tree.visible(tree);
        let n = self.visible.len();
        if self.selected >= n {
            self.selected = if n == 0 {
                0
            } else {
                n - 1
            };
        }
    }

    fn refresh_files(&mut self, tree: &DirNode)
        requires
            old(self).wf(),
        ensures
            final(self).wf(),
            final(self).files@.map_values(|s: String| s@) == notes::notes_under(*tree),
            final(self).file_labels@.len() == final(self).files@.len(),
            forall|i: int|
                0 <= i < final(self).files@.len() ==> (#[trigger] final(self).file_labels@[i])@
                    == relative_label_spec(old(self).tree.root_view(), final(self).files@[i]@),
            final(self).results@.len() == 0,
            *final(self) == (App {
                files: final(self).files,
                file_labels: final(self).file_labels,
                results: final(self).results,
                ..*old(self)
            }),
    {
        let files = self.tree.all_files(tree);
        let mut labels: Vec<String> = Vec::new();
        let mut i: usize = 0;
        while i < files.len()
            invariant
                i <= files@.len(),
                labels@.len() == i,
                forall|j: int|
                    0 <= j < i ==> (#[trigger] labels@[j])@ == relative_label_spec(
                        self.tree.root_view(),
                        files@[j]@,
                    ),
            decreases files@.len() - i,
        {
            labels.push(relative_label(self.tree.root(), files[i].as_str()));
            i = i + 1;
        }
        self.results = Vec::new();
        self.files = files;
        self.file_labels = labels;
    }

    fn refresh_reminders(&mut self, rems: Vec<Reminder>)
        requires
            old(self).wf(),
        ensures
            final(self).wf(),
            *final(self) == (App {
                rem_selected: clamp_to(old(self).rem_selected, rems@.len()),
                reminders: rems,
                ..*old(self)
            }),
    {
        let n = rems.len();
        self.reminders = rems;
        if self.rem_selected >= n {
            self.rem_selected = if n == 0 {
                0
            } else {
                n - 1
            };
        }
    }

    /// The state after the notes directory and reminders were read.
    #[verifier::rlimit(40)]
    fn loaded(&mut self, after: After, tree: DirNode, rems: Vec<Reminder>) -> (c: Command)
        requires
            old(self).wf(),
            old(self).awaiting is Nothing,
        ensures
            final(self).wf(),
            loaded_post(*old(self), after, tree, rems, *final(self), c),
    {
        self.refresh_tree(&tree);
        self.refresh_files(&tree);
        self.refresh_reminders(rems);
        self.recompute_search(Some(after))
    }
}

} // verus!

verus! {

impl App {
    /// A fresh state over `notes_dir` (the notes root), and the command to
    /// load it.
    pub fn new(notes_dir: String) -> (r: (App, Command))
        ensures
            r.0.wf(),
            r.1 is Reload,
            r.0.awaiting matches Awaiting::Loaded(After::Nothing),
            r.0.notes_dir@ == notes_dir@,
            r.0.tree.root_view() == notes_dir@,
            r.0.tree.expanded_set() == Set::<Seq<Seq<char>>>::empty(),
            r.0.visible@.len() == 0 && r.0.files@.len() == 0 && r.0.results@.len() == 0,
            r.0.reminders@.len() == 0,
            r.0.selected == 0 && r.0.rem_selected == 0,
            r.0.search@.len() == 0,
            r.0.search_scope == SearchScope::Name,
            r.0.mode == Mode::Normal,
            r.0.focus == Focus::Tree,
            r.0.status@.len() == 0,
            !r.0.should_quit,
    {
        let tree = NoteTree::new(notes_dir.clone());
        let app = App {
            notes_dir,
            tree,
            visible: Vec::new(),
            files: Vec::new(),
            file_labels: Vec::new(),
            results: Vec::new(),
            selected: 0,
            search: String::new(),
            search_scope: SearchScope::Name,
            reminders: Vec::new(),
            rem_selected: 0,
            mode: Mode::Normal,
            focus: Focus::Tree,
            add_stage: AddStage::Text,
            input_text: String::new(),
            input_due: String::new(),
            prompt_kind: PromptKind::NewNote,
            prompt_input: String::new(),
            prompt_target: None,
            delete_target: None,
            preview: String::new(),
            preview_is_md: false,
            status: String::new(),
            should_quit: false,
            awaiting: Awaiting::Loaded(After::Nothing),
        };
        (app, Command::Reload)
    }

    /// One step of the application: handles a key (when nothing is
    /// awaited) or the outcome of the last command, and says what outside
    /// work comes next.
    pub fn step(&mut self, event: Event) -> (c: Command)
        requires
            old(self).wf(),
        ensures
            final(self).wf(),
            step_post(*old(self), event, *final(self), c),
    {
        let ghost a = *self;
        let mut awaiting = Awaiting::Nothing;
        std::mem::swap(&mut awaiting, &mut self.awaiting);
        match awaiting {
            Awaiting::Nothing => match event {
                Event::Key(k) => self.on_key(k),
                _ => Command::Idle,
            },
            Awaiting::Loaded(after) => match event {
                Event::Loaded(tree, rems) => self.loaded(after, tree, rems),
                _ => {
                    self.awaiting = Awaiting::Loaded(after);
                    Command::Idle
                },
            },
            Awaiting::Contents(cont) => match event {
                Event::Contents(cs) => self.contents_read(cont, cs),
                _ => {
                    self.awaiting = Awaiting::Contents(cont);
                    Command::Idle
                },
            },
            Awaiting::Preview(path) => match event {
                Event::Preview(r) => {
                    self.preview = match r {
                        Ok(t) => preview_text(t.as_str()),
                        Err(m) => unreadable(path.as_str(), m.as_str()),
                    };
                    Command::Idle
                },
                _ => {
                    self.awaiting = Awaiting::Preview(path);
                    Command::Idle
                },
            },
            Awaiting::Editor(after) => match event {
                Event::EditorClosed => {
                    self.awaiting = Awaiting::Loaded(after);
                    Command::Reload
                },
                _ => {
                    self.awaiting = Awaiting::Editor(after);
                    Command::Idle
                },
            },
            Awaiting::Reminders(s) => match event {
                Event::Reminders(rs) => {
                    self.refresh_reminders(rs);
                    self.status = s;
                    Command::Idle
                },
                _ => {
                    self.awaiting = Awaiting::Reminders(s);
                    Command::Idle
                },
            },
            Awaiting::NoteCreated(p) => match event {
                Event::FsDone(r) => match r {
                    Ok(_) => {
                        self.mode = Mode::Normal;
                        self.awaiting = Awaiting::Editor(After::Select(p.clone(), message("note created")));
                        Command::OpenEditor(p)
                    },
                    Err(e) => {
                        self.status = e.message();
                        Command::Idle
                    },
                },
                _ => {
                    self.awaiting = Awaiting::NoteCreated(p);
                    Command::Idle
                },
            },
            Awaiting::FolderCreated(p) => match event {
                Event::FsDone(r) => match r {
                    Ok(_) => {
                        self.mode = Mode::Normal;
                        self.awaiting = Awaiting::Loaded(After::Select(p, message("folder created")));
                        Command::Reload
                    },
                    Err(e) => {
                        self.status = e.message();
                        Command::Idle
                    },
                },
                _ => {
                    self.awaiting = Awaiting::FolderCreated(p);
                    Command::Idle
                },
            },
            Awaiting::Renamed(p) => match event {
                Event::FsDone(r) => match r {
                    Ok(_) => {
                        self.mode = Mode::Normal;
                        self.awaiting = Awaiting::Loaded(After::Select(p, message("renamed")));
                        Command::Reload
                    },
                    Err(e) => {
                        self.status = e.message();
                        Command::Idle
                    },
                },
                _ => {
                    self.awaiting = Awaiting::Renamed(p);
                    Command::Idle
                },
            },
            Awaiting::Deleted => match event {
                Event::FsDone(r) => match r {
                    Ok(_) => {
                        self.mode = Mode::Normal;
                        self.awaiting = Awaiting::Loaded(After::Status(message("deleted")));
                        Command::Reload
                    },
                    Err(e) => {
                        self.status = e.message();
                        Command::Idle
                    },
                },
                _ => {
                    self.awaiting = Awaiting::Deleted;
                    Command::Idle
                },
            },
        }
    }
}

} // verus!

verus! {

/// A left-panel row as plain values: its text, whether it is a directory.
pub open spec fn tree_row_view(r: TreeRow) -> (Seq<char>, bool) {
    (r.text@, r.is_dir)
}

/// The snippet of a hit as plain values.
pub open spec fn snippet_view(s: Option<String>) -> Option<Seq<char>> {
    match s {
        Some(t) => Some(t@),
        None => None,
    }
}

/// The row of a search hit: its note's label and the snippet, if any; none
/// for a hit whose note has no label.
pub open spec fn hit_row_spec(labels: Seq<String>, h: SearchHit) -> Option<(Seq<char>, bool)> {
    if h.file < labels.len() {
        Some((hit_label_spec(labels[h.file as int]@, snippet_view(h.snippet)), false))
    } else {
        None
    }
}

/// The rows of the left panel: one per search hit (label and snippet)
/// when searching, else one per tree row (indented, directories marked
/// open or closed).
pub open spec fn display_rows_spec(a: App) -> Seq<(Seq<char>, bool)> {
    if a.searching() {
        a.results@.filter_map(|h: SearchHit| hit_row_spec(a.file_labels@, h))
    } else {
        Seq::new(
            a.visible@.len(),
            |k: int|
                (
                    tree_label_spec(
                        a.visible@[k].path@,
                        a.visible@[k].depth,
                        a.visible@[k].is_dir,
                        a.tree.expanded_set().contains(path_components(a.visible@[k].path@)),
                    ),
                    a.visible@[k].is_dir,
                ),
        )
    }
}

impl App {
    /// Rows for the left panel: search hits when filtering, else the tree.
    pub fn display_rows(&self) -> (rows: Vec<TreeRow>)
        ensures
            rows@.map_values(|r: TreeRow| tree_row_view(r)) == display_rows_spec(*self),
    {
        let mut rows: Vec<TreeRow> = Vec::new();
        if self.is_searching() {
            let ghost f = |h: SearchHit| hit_row_spec(self.file_labels@, h);
            let mut k: usize = 0;
            while k < self.results.len()
                invariant
                    self.searching(),
                    f == (|h: SearchHit| hit_row_spec(self.file_labels@, h)),
                    k <= self.results@.len(),
                    rows@.map_values(|r: TreeRow| tree_row_view(r)) == self.results@.subrange(0, k as int).filter_map(f),
                decreases self.results@.len() - k,
            {
                let ghost before = rows@.map_values(|r: TreeRow| tree_row_view(r));
                let hit = &self.results[k];
                if hit.file < self.file_labels.len() {
                    let label = &self.file_labels[hit.file];
                    rows.push(TreeRow { text: hit_label(label.as_str(), &hit.snippet), is_dir: false });
                    assert(rows@.map_values(|r: TreeRow| tree_row_view(r)) =~= before + seq![tree_row_view(rows@.last())]);
                }
                proof {
                    let sub = self.results@.subrange(0, k + 1);
                    assert(sub.drop_last() =~= self.results@.subrange(0, k as int));
                    assert(sub.last() == self.results@[k as int]);
                }
                k = k + 1;
            }
            assert(self.results@.subrange(0, self.results@.len() as int) =~= self.results@);
        } else {
            let mut k: usize = 0;
            while k < self.visible.len()
                invariant
                    !self.searching(),
                    k <= self.visible@.len(),
                    rows@.len() == k,
                    forall|j: int| 0 <= j < k ==> tree_row_view(#[trigger] rows@[j]) == display_rows_spec(*self)[j],
                decreases self.visible@.len() - k,
            {
                let node = &self.visible[k];
                let expanded = self.tree.is_expanded(node.path.as_str());
                rows.push(TreeRow { text: tree_label(node.path.as_str(), node.depth, node.is_dir, expanded), is_dir: node.is_dir });
                k = k + 1;
            }
            assert(rows@.map_values(|r: TreeRow| tree_row_view(r)) =~= display_rows_spec(*self));
        }
        rows
    }
}

} // verus!

verus! {

/// The selection points at a row of the left panel (the top when it is
/// empty).
pub open spec fn selection_ok(a: App) -> bool {
    if a.list_len_spec() == 0 {
        a.selected == 0
    } else {
        a.selected < a.list_len_spec()
    }
}

/// Pressing Tab twice in normal mode gives the focus back to the panel
/// that had it, and changes nothing else.
pub proof fn law_tab_twice(a: App, b: App, d: App, c1: Command, c2: Command)
    requires
        a.mode == Mode::Normal,
        a.awaiting is Nothing,
        step_post(a, Event::Key(Key::Tab), b, c1),
        step_post(b, Event::Key(Key::Tab), d, c2),
    ensures
        d == a,
        c1 is Idle && c2 is Idle,
{
}

/// Search empty means tree view: with no query the left panel lists the
/// tree rows, and the selected note is the selected tree row's.
pub proof fn law_empty_search_shows_tree(a: App)
    requires
        !a.searching(),
    ensures
        a.list_len_spec() == a.visible@.len(),
        display_rows_spec(a).len() == a.visible@.len(),
        a.selected_file_spec() == (if a.selected < a.visible@.len() && !a.visible@[a.selected as int].is_dir {
            Some(a.visible@[a.selected as int].path@)
        } else {
            None
        }),
{
}

/// After a plain reload (not waiting for note texts), the selection
/// points at a row of the left panel.
pub proof fn law_reload_keeps_selection_on_list(a: App, tree: DirNode, rems: Vec<Reminder>, b: App, c: Command)
    requires
        a.awaiting matches Awaiting::Loaded(After::Nothing),
        !(a.search_scope == SearchScope::Content && a.searching()),
        step_post(a, Event::Loaded(tree, rems), b, c),
    ensures
        selection_ok(b),
{
}

/// When the note texts for a content search arrive (outside a reload), the
/// selection points at a row of the left panel.
pub proof fn law_contents_keep_selection_on_list(a: App, cs: Vec<Option<String>>, b: App, c: Command)
    requires
        a.awaiting matches Awaiting::Contents(None),
        step_post(a, Event::Contents(cs), b, c),
    ensures
        selection_ok(b),
{
}

/// Esc in search mode leaves the search: no query, no hits, normal mode,
/// the top row selected.
pub proof fn law_esc_leaves_search(a: App, b: App, c: Command)
    requires
        a.mode == Mode::Search,
        a.awaiting is Nothing,
        step_post(a, Event::Key(Key::Esc), b, c),
    ensures
        !b.searching(),
        b.results@.len() == 0,
        b.mode == Mode::Normal,
        b.selected == 0,
        b.list_len_spec() == a.visible@.len(),
{
}

} // verus!

verus! {

/// Typing in a name search refreshes the hits: the query grows by the
/// character, the selection stays where it was when that row is still on
/// the list (else it goes to the top), the preview follows the selected note
/// (marked markdown exactly for a `.md` note, emptied when no note is
/// selected), and the notes and the tree stay as they were.
pub proof fn law_search_refresh(a: App, ch: char, b: App, c: Command)
    requires
        a.mode == Mode::Search,
        a.awaiting is Nothing,
        a.search_scope == SearchScope::Name,
        step_post(a, Event::Key(Key::Char(ch)), b, c),
    ensures
        b.search@ == a.search@.push(ch),
        b.selected == (if a.selected < b.list_len_spec() {
            a.selected
        } else {
            0
        }),
        b.files == a.files,
        b.file_labels == a.file_labels,
        b.visible == a.visible,
        b.mode == Mode::Search,
        match b.selected_file_spec() {
            Some(p) => b.preview_is_md == notes::is_markdown_path(p) && (c matches Command::ReadPreview(
                q) && q@ == p),
            None => !b.preview_is_md && b.preview@.len() == 0 && c is Idle,
        },
{
    let a1 = App { search: b.search, ..a };
    let a2 = clamped(App { results: b.results, ..a1 });
    assert(a2.selected_file_spec() == b.selected_file_spec());
}

} // verus!

verus! {

/// Typing in a content search refreshes the hits in two steps: the key asks
/// for the note texts, and once they arrive the query has grown by the
/// character, the selection stays where it was when that row is still on
/// the list (else it goes to the top), the preview follows the selected
/// note (marked markdown exactly for a `.md` note, emptied when no note is
/// selected), and the notes and the tree stay as they were.
pub proof fn law_content_refresh(
    a: App,
    ch: char,
    b: App,
    c1: Command,
    cs: Vec<Option<String>>,
    d: App,
    c2: Command,
)
    requires
        a.mode == Mode::Search,
        a.awaiting is Nothing,
        a.search_scope == SearchScope::Content,
        step_post(a, Event::Key(Key::Char(ch)), b, c1),
        step_post(b, Event::Contents(cs), d, c2),
    ensures
        c1 is ReadContents,
        d.search@ == a.search@.push(ch),
        d.selected == (if a.selected < d.list_len_spec() {
            a.selected
        } else {
            0
        }),
        d.files == a.files,
        d.file_labels == a.file_labels,
        d.visible == a.visible,
        d.mode == Mode::Search,
        d.awaiting is Nothing || d.awaiting is Preview,
        match d.selected_file_spec() {
            Some(p) => d.preview_is_md == notes::is_markdown_path(p) && (c2 matches Command::ReadPreview(
                q) && q@ == p),
            None => !d.preview_is_md && d.preview@.len() == 0 && c2 is Idle,
        },
{
    let a1 = App { search: b.search, ..a };
    assert(a1.searching());
    assert(b == (App { awaiting: Awaiting::Contents(None), ..a1 }));
    let b1 = clamped(App { results: d.results, awaiting: Awaiting::Nothing, ..b });
    assert(b1.selected_file_spec() == d.selected_file_spec());
}

} // verus!

verus! {

/// Where a new note or folder goes (`n` or `N`, a name, Enter): beside the
/// selected note (in its parent directory), inside the selected folder, or
/// in the notes root while searching or when nothing is selected. The name
/// is used trimmed; a note gets a note extension.
pub proof fn law_new_entry_place(a: App, b: App, c: Command)
    requires
        a.mode == Mode::Prompt,
        a.awaiting is Nothing,
        a.prompt_kind == PromptKind::NewNote || a.prompt_kind == PromptKind::NewFolder,
        trim_spec(a.prompt_input@).len() > 0,
        !crate::text::contains_spec(trim_spec(a.prompt_input@), seq!['/']),
        !crate::text::contains_spec(trim_spec(a.prompt_input@), seq!['.', '.']),
        step_post(a, Event::Key(Key::Enter), b, c),
    ensures
        ({
            let t = trim_spec(a.prompt_input@);
            let made = |dir: Seq<char>|
                if a.prompt_kind == PromptKind::NewNote {
                    c matches Command::CreateNote(q) && q@ == fs_ops::ensure_note_ext_spec(join_spec(dir, t))
                } else {
                    c matches Command::CreateFolder(q) && q@ == join_spec(dir, t)
                };
            &&& (!a.searching() && a.selected < a.visible@.len() && !a.visible@[a.selected as int].is_dir)
                ==> made(
                match path_parent(a.visible@[a.selected as int].path@) {
                    Some(p) => p,
                    None => Seq::<char>::empty(),
                },
            )
            &&& (!a.searching() && a.selected < a.visible@.len() && a.visible@[a.selected as int].is_dir)
                ==> made(a.visible@[a.selected as int].path@)
            &&& (a.searching() || a.selected >= a.visible@.len()) ==> made(a.tree.root_view())
        }),
{
    fs_ops::law_name_rules(new_note_dir_spec(a), a.prompt_input@, Seq::<char>::empty());
}

} // verus!
