//! The floating overlay as a state machine: each user action is a method that
//! updates the state and sets a plan of steps; the program around it asks for
//! the next command, performs it (file access, opening the canvas, resizing
//! the window) and hands back what it got.
use vstd::prelude::*;
use crate::notes::{note_views, NoteInfo, NoteView};
use crate::order::{key_ints, sort_witness, stable_sort_desc, stable_sorted_desc};
use crate::tasks::{
    content_of_lines, content_views, edit_value, edit_value_of, front_matter_lines,
    parse_content_lines, parse_tasks,
    task_views, tasks_of_lines, ContentLine, ContentView, TaskItem, TaskView,
};
use crate::text::{chars_of, line_spans, lines, span, string_of, sub_vec, trim, utf8_len};
use crate::bindings::{joined_path, lowercased, path_join, to_lowercase};
use crate::notes::str_view;

verus! {

pub const MIN_W: u32 = 300;

pub const MAX_W: u32 = 800;

pub const MIN_H: u32 = 200;

pub const MAX_H: u32 = 600;

pub const DEFAULT_W: u32 = 428;

pub const DEFAULT_H: u32 = 280;

/// What the input line is for.
#[derive(PartialEq, Eq, Structural, Clone, Copy, Debug)]
pub enum OverlayMode {
    Normal,
    CreatingNote,
}

/// The edge or corner by which the window is being resized.
#[derive(PartialEq, Eq, Structural, Clone, Copy, Debug)]
pub enum ResizeEdge {
    N,
    S,
    E,
    W,
    NE,
    NW,
    SE,
    SW,
}

/// The context menu of a note.
#[derive(Clone, Debug)]
pub struct CtxMenu {
    pub note_name: String,
    pub confirming_delete: bool,
}

/// A line of the expanded note being edited in place.
#[derive(Clone, Debug)]
pub struct EditingLine {
    pub line_index: usize,
    pub value: String,
    pub is_task: bool,
    pub was_done: bool,
}

/// What is kept between runs: pinned and hidden notes, the window's size.
pub struct PanelState {
    pub pinned: Vec<String>,
    pub hidden: Vec<String>,
    pub window_w: u32,
    pub window_h: u32,
}

/// What the window is asked to do at the end of an action.
#[derive(PartialEq, Eq, Structural, Clone, Copy, Debug)]
pub enum WindowTask {
    Nothing,
    Resize(u32, u32),
    Move(i32, i32, i32, i32),
    ResizeAndMove(u32, u32, i32, i32, i32, i32),
}

/// What the program around the overlay is asked to do next.
pub enum Command {
    /// Append `text` as a line to the note file `filename`; answer `Appended`.
    AppendToNote { filename: String, text: String },
    /// Scan the notes directory; answer `Notes`.
    LoadNotes,
    /// Read the note file; answer `Read`.
    ReadNote { filename: String },
    /// Replace a line of the note file; answer `Done`.
    ReplaceLine { filename: String, line_index: usize, text: String },
    /// Toggle the task on a line of the note file; answer `Done`.
    ToggleTask { filename: String, line_index: usize },
    /// Create the note file, empty, unless it exists; answer `Done`.
    CreateNoteFile { filename: String },
    /// Delete the note file; answer `Done`.
    DeleteNoteFile { filename: String },
    /// Save the pinned and hidden notes and the window size; answer `Done`.
    SavePanel,
    /// Open the canvas; answer `Done`.
    OpenCanvas,
    /// Open the canvas on a note; answer `Done`.
    OpenCanvasWith { filename: String },
    /// End the program.
    Exit,
    /// The action is over; do this with the window.
    Finish(WindowTask),
}

/// What the program hands back after a command.
pub enum Response {
    Done,
    Appended(Result<(), String>),
    Notes(Vec<NoteInfo>),
    Read(Result<String, String>),
}

/// A step of a plan.
pub enum Step {
    /// Ask for a command whose answer changes nothing.
    Perform(Command),
    /// Append a line to a note, then react to the outcome.
    Append { filename: String, text: String },
    /// Scan the notes again.
    Refresh,
    /// Read the expanded note again, keeping what was shown where that fails.
    Reload,
    /// Read the note just expanded, showing nothing where that fails.
    Expand,
    /// Read the line to be edited from the expanded note.
    EditValue { line_index: usize, is_task: bool, was_done: bool },
    /// Fit the window's height to the list.
    Fit,
    /// End with this window task.
    Finish(WindowTask),
}

/// Which answer the machine is waiting for.
#[derive(PartialEq, Eq, Structural, Clone, Copy)]
pub enum Awaiting {
    Nothing,
    Acknowledge,
    Append,
    Notes,
    Reload,
    Expand,
    EditValue { line_index: usize, is_task: bool, was_done: bool },
}

// ---------------------------------------------------------------- views

pub enum CommandView {
    AppendToNote { filename: Seq<char>, text: Seq<char> },
    LoadNotes,
    ReadNote { filename: Seq<char> },
    ReplaceLine { filename: Seq<char>, line_index: usize, text: Seq<char> },
    ToggleTask { filename: Seq<char>, line_index: usize },
    CreateNoteFile { filename: Seq<char> },
    DeleteNoteFile { filename: Seq<char> },
    SavePanel,
    OpenCanvas,
    OpenCanvasWith { filename: Seq<char> },
    Exit,
    Finish(WindowTask),
}

impl View for Command {
    type V = CommandView;

    open spec fn view(&self) -> CommandView {
        match self {
            Command::AppendToNote { filename, text } => CommandView::AppendToNote {
                filename: filename@,
                text: text@,
            },
            Command::LoadNotes => CommandView::LoadNotes,
            Command::ReadNote { filename } => CommandView::ReadNote { filename: filename@ },
            Command::ReplaceLine { filename, line_index, text } => CommandView::ReplaceLine {
                filename: filename@,
                line_index: *line_index,
                text: text@,
            },
            Command::ToggleTask { filename, line_index } => CommandView::ToggleTask {
                filename: filename@,
                line_index: *line_index,
            },
            Command::CreateNoteFile { filename } => CommandView::CreateNoteFile {
                filename: filename@,
            },
            Command::DeleteNoteFile { filename } => CommandView::DeleteNoteFile {
                filename: filename@,
            },
            Command::SavePanel => CommandView::SavePanel,
            Command::OpenCanvas => CommandView::OpenCanvas,
            Command::OpenCanvasWith { filename } => CommandView::OpenCanvasWith {
                filename: filename@,
            },
            Command::Exit => CommandView::Exit,
            Command::Finish(t) => CommandView::Finish(*t),
        }
    }
}

pub enum StepView {
    Perform(CommandView),
    Append { filename: Seq<char>, text: Seq<char> },
    Refresh,
    Reload,
    Expand,
    EditValue { line_index: usize, is_task: bool, was_done: bool },
    Fit,
    Finish(WindowTask),
}

impl View for Step {
    type V = StepView;

    open spec fn view(&self) -> StepView {
        match self {
            Step::Perform(c) => StepView::Perform(c@),
            Step::Append { filename, text } => StepView::Append {
                filename: filename@,
                text: text@,
            },
            Step::Refresh => StepView::Refresh,
            Step::Reload => StepView::Reload,
            Step::Expand => StepView::Expand,
            Step::EditValue { line_index, is_task, was_done } => StepView::EditValue {
                line_index: *line_index,
                is_task: *is_task,
                was_done: *was_done,
            },
            Step::Fit => StepView::Fit,
            Step::Finish(t) => StepView::Finish(*t),
        }
    }
}

pub enum ResponseView {
    Done,
    Appended(Result<(), Seq<char>>),
    Notes(Seq<NoteView>),
    Read(Result<Seq<char>, Seq<char>>),
}

impl View for Response {
    type V = ResponseView;

    open spec fn view(&self) -> ResponseView {
        match self {
            Response::Done => ResponseView::Done,
            Response::Appended(r) => ResponseView::Appended(
                match r {
                    Ok(()) => Ok(()),
                    Err(e) => Err(e@),
                },
            ),
            Response::Notes(ns) => ResponseView::Notes(note_views(ns@)),
            Response::Read(r) => ResponseView::Read(
                match r {
                    Ok(c) => Ok(c@),
                    Err(e) => Err(e@),
                },
            ),
        }
    }
}

pub struct EditingView {
    pub line_index: usize,
    pub value: Seq<char>,
    pub is_task: bool,
    pub was_done: bool,
}

/// The overlay's state as plain values.
pub struct OverlayView {
    pub mode: OverlayMode,
    pub input_value: Seq<char>,
    pub notes: Seq<NoteView>,
    pub notes_dir: Seq<char>,
    pub status_msg: Seq<char>,
    pub selected_file: Seq<char>,
    pub session_file: Seq<char>,
    pub pinned: Seq<Seq<char>>,
    pub hidden: Seq<Seq<char>>,
    pub ctx_menu: Option<(Seq<char>, bool)>,
    pub expanded_note: Option<Seq<char>>,
    pub expanded_tasks: Seq<TaskView>,
    pub expanded_content_lines: Seq<ContentView>,
    pub editing_line: Option<EditingView>,
    pub dragging: bool,
    pub drag_hovered: bool,
    pub window_size: (u32, u32),
    pub resizing: Option<ResizeEdge>,
    pub resize_size_start: (u32, u32),
    pub resize_margin_start: (i32, i32),
    pub margin: (i32, i32, i32, i32),
    pub plan: Seq<StepView>,
    pub awaiting: Awaiting,
}

/// The overlay: what it shows, what is being edited, the window's geometry,
/// and the plan of the action in progress.
pub struct Overlay {
    pub mode: OverlayMode,
    pub input_value: String,
    pub notes: Vec<NoteInfo>,
    pub notes_dir: String,
    pub status_msg: String,
    pub selected_file: String,
    pub session_file: String,
    pub pinned: Vec<String>,
    pub hidden: Vec<String>,
    pub ctx_menu: Option<CtxMenu>,
    pub expanded_note: Option<String>,
    pub expanded_tasks: Vec<TaskItem>,
    pub expanded_content_lines: Vec<ContentLine>,
    pub editing_line: Option<EditingLine>,
    pub dragging: bool,
    pub drag_hovered: bool,
    pub window_size: (u32, u32),
    pub resizing: Option<ResizeEdge>,
    pub resize_size_start: (u32, u32),
    pub resize_margin_start: (i32, i32),
    pub margin: (i32, i32, i32, i32),
    pub plan: Vec<Step>,
    pub awaiting: Awaiting,
}

pub open spec fn names_view(v: Seq<String>) -> Seq<Seq<char>> {
    v.map_values(|s: String| s@)
}

pub open spec fn opt_string_view(o: Option<String>) -> Option<Seq<char>> {
    match o {
        Some(s) => Some(s@),
        None => None,
    }
}

impl View for Overlay {
    type V = OverlayView;

    open spec fn view(&self) -> OverlayView {
        OverlayView {
            mode: self.mode,
            input_value: self.input_value@,
            notes: note_views(self.notes@),
            notes_dir: self.notes_dir@,
            status_msg: self.status_msg@,
            selected_file: self.selected_file@,
            session_file: self.session_file@,
            pinned: names_view(self.pinned@),
            hidden: names_view(self.hidden@),
            ctx_menu: match self.ctx_menu {
                Some(c) => Some((c.note_name@, c.confirming_delete)),
                None => None,
            },
            expanded_note: opt_string_view(self.expanded_note),
            expanded_tasks: task_views(self.expanded_tasks@),
            expanded_content_lines: content_views(self.expanded_content_lines@),
            editing_line: match self.editing_line {
                Some(e) => Some(
                    EditingView {
                        line_index: e.line_index,
                        value: e.value@,
                        is_task: e.is_task,
                        was_done: e.was_done,
                    },
                ),
                None => None,
            },
            dragging: self.dragging,
            drag_hovered: self.drag_hovered,
            window_size: self.window_size,
            resizing: self.resizing,
            resize_size_start: self.resize_size_start,
            resize_margin_start: self.resize_margin_start,
            margin: self.margin,
            plan: self.plan@.map_values(|s: Step| s@),
            awaiting: self.awaiting,
        }
    }
}

// ---------------------------------------------------------------- invariant

/// The window's size lies within its bounds.
pub open spec fn size_in_bounds(s: (u32, u32)) -> bool {
    MIN_W <= s.0 <= MAX_W && MIN_H <= s.1 <= MAX_H
}

impl OverlayView {
    /// The window is within its size bounds, its margins are not negative and
    /// only the top and right ones are used, and a resize in progress started
    /// from such a geometry.
    pub open spec fn wf(self) -> bool {
        &&& size_in_bounds(self.window_size)
        &&& self.margin.0 >= 0 && self.margin.1 >= 0 && self.margin.2 == 0 && self.margin.3 == 0
        &&& self.resizing is Some ==> size_in_bounds(self.resize_size_start)
            && self.resize_margin_start.0 >= 0 && self.resize_margin_start.1 >= 0
    }
}

// ---------------------------------------------------------------- saved state

/// Where the panel state is kept: `.config/overlay/panel.json` under the
/// home directory, or under `/tmp` where the home directory is not known.
pub open spec fn panel_file(home: Option<Seq<char>>) -> Seq<char> {
    let h = match home {
        Some(h) => h,
        None => "/tmp"@,
    };
    joined_path(joined_path(joined_path(h, ".config"@), "overlay"@), "panel.json"@)
}

/// The path of the panel state for the home directory `home`.
pub fn panel_path_for(home: Option<&str>) -> (r: String)
    ensures
        r@ == panel_file(str_view(home)),
{
    let h = match home {
        Some(h) => String::from_str(h),
        None => String::from_str("/tmp"),
    };
    let a = path_join(h.as_str(), ".config");
    let b = path_join(a.as_str(), "overlay");
    path_join(b.as_str(), "panel.json")
}

// ---------------------------------------------------------------- names

/// `name` is in the list.
pub open spec fn names_contain(v: Seq<Seq<char>>, name: Seq<char>) -> bool {
    exists|i: int| 0 <= i < v.len() && v[i] == name
}

/// The list without `name`.
pub open spec fn remove_name(v: Seq<Seq<char>>, name: Seq<char>) -> Seq<Seq<char>>
    decreases v.len(),
{
    if v.len() == 0 {
        v
    } else {
        let r = remove_name(v.drop_last(), name);
        if v.last() == name {
            r
        } else {
            r.push(v.last())
        }
    }
}

/// The pinned list after pinning or unpinning `name`.
pub open spec fn pin_toggled(v: Seq<Seq<char>>, name: Seq<char>) -> Seq<Seq<char>> {
    if names_contain(v, name) {
        remove_name(v, name)
    } else {
        v.push(name)
    }
}

/// The file of the note called `name`.
pub open spec fn md_file(name: Seq<char>) -> Seq<char> {
    name + ".md"@
}

pub proof fn lemma_remove_name(v: Seq<Seq<char>>, name: Seq<char>, x: Seq<char>)
    ensures
        names_contain(remove_name(v, name), x) == (names_contain(v, x) && x != name),
    decreases v.len(),
{
    if v.len() == 0 {
    } else {
        let d = v.drop_last();
        let l = v.last();
        lemma_remove_name(d, name, x);
        assert(v =~= d.push(l));
        lemma_push_name(d, l, x);
        let r = remove_name(d, name);
        if l != name {
            lemma_push_name(r, l, x);
        }
    }
}

pub proof fn lemma_push_name(v: Seq<Seq<char>>, name: Seq<char>, x: Seq<char>)
    ensures
        names_contain(v.push(name), x) == (names_contain(v, x) || x == name),
{
    if names_contain(v, x) {
        let i = choose|i: int| 0 <= i < v.len() && v[i] == x;
        assert(v.push(name)[i] == x);
    }
    if x == name {
        assert(v.push(name)[v.len() as int] == x);
    }
    if names_contain(v.push(name), x) && x != name {
        let i = choose|i: int| 0 <= i < v.push(name).len() && v.push(name)[i] == x;
        assert(v[i] == x);
    }
}

/// Whether `name` is in the list.
pub fn contains_name(v: &Vec<String>, name: &String) -> (b: bool)
    ensures
        b == names_contain(names_view(v@), name@),
{
    let mut i: usize = 0;
    while i < v.len()
        invariant
            i <= v@.len(),
            forall|j: int| 0 <= j < i ==> v@[j]@ != name@,
        decreases v.len() - i,
    {
        if v[i] == *name {
            assert(names_view(v@)[i as int] == name@);
            return true;
        }
        i = i + 1;
    }
    proof {
        if names_contain(names_view(v@), name@) {
            let j = choose|j: int| 0 <= j < names_view(v@).len() && names_view(v@)[j] == name@;
            assert(v@[j]@ == name@);
        }
    }
    false
}

/// The list without `name` (`retain(|n| n != name)`).
pub fn without_name(v: &Vec<String>, name: &String) -> (r: Vec<String>)
    ensures
        names_view(r@) == remove_name(names_view(v@), name@),
{
    let mut r: Vec<String> = Vec::new();
    let mut i: usize = 0;
    while i < v.len()
        invariant
            i <= v@.len(),
            names_view(r@) == remove_name(names_view(v@).take(i as int), name@),
        decreases v.len() - i,
    {
        let ghost before = names_view(r@);
        assert(names_view(v@).take(i + 1).drop_last() =~= names_view(v@).take(i as int));
        assert(names_view(v@).take(i + 1).last() == v@[i as int]@);
        if v[i] != *name {
            r.push(v[i].clone());
            assert(names_view(r@) =~= before.push(v@[i as int]@));
        }
        i = i + 1;
    }
    assert(names_view(v@).take(i as int) =~= names_view(v@));
    r
}

/// The file name of the note called `name`: `name.md`.
pub fn md_file_name(name: &String) -> (r: String)
    ensures
        r@ == md_file(name@),
{
    let mut r = name.clone();
    r.append(".md");
    r
}

// ---------------------------------------------------------------- the note list

/// The notes not hidden, in order.
pub open spec fn visible_notes(notes: Seq<NoteView>, hidden: Seq<Seq<char>>) -> Seq<NoteView>
    decreases notes.len(),
{
    if notes.len() == 0 {
        notes
    } else {
        let r = visible_notes(notes.drop_last(), hidden);
        if names_contain(hidden, notes.last().name) {
            r
        } else {
            r.push(notes.last())
        }
    }
}

/// Where a note goes in the list: pinned notes first, then the session note,
/// then the others, each group newest first.
pub open spec fn note_rank(n: NoteView, pinned: Seq<Seq<char>>, session_file: Seq<char>) -> int {
    (if names_contain(pinned, n.name) {
        0x2_0000_0000_0000_0000int
    } else {
        0int
    }) + (if md_file(n.name) == session_file {
        0x1_0000_0000_0000_0000int
    } else {
        0int
    }) + n.modified as int
}

pub open spec fn rank_keys(ns: Seq<NoteView>, pinned: Seq<Seq<char>>, session_file: Seq<char>) -> Seq<
    int,
> {
    ns.map_values(|n: NoteView| note_rank(n, pinned, session_file))
}

impl OverlayView {
    /// The notes the list shows, in no particular order yet.
    pub open spec fn visible(self) -> Seq<NoteView> {
        visible_notes(self.notes, self.hidden)
    }

    /// `s` is the list as shown: the visible notes ranked.
    pub open spec fn shown_order(self, s: Seq<NoteView>) -> bool {
        stable_sorted_desc(self.visible(), rank_keys(self.visible(), self.pinned, self.session_file), s)
    }
}

pub open spec fn deref_views(v: Seq<&NoteInfo>) -> Seq<NoteView> {
    v.map_values(|r: &NoteInfo| (*r)@)
}

impl Overlay {
    /// The notes as the list shows them: hidden ones left out, pinned ones
    /// first, then the session note, then the rest, newest first in each group.
    pub fn sorted_visible_notes(&self) -> (r: Vec<&NoteInfo>)
        ensures
            self@.shown_order(deref_views(r@)),
    {
        let ghost hid = names_view(self.hidden@);
        let ghost pin = names_view(self.pinned@);
        let mut vis: Vec<&NoteInfo> = Vec::new();
        let mut keys: Vec<u128> = Vec::new();
        let mut i: usize = 0;
        while i < self.notes.len()
            invariant
                i <= self.notes@.len(),
                hid == names_view(self.hidden@),
                pin == names_view(self.pinned@),
                deref_views(vis@) == visible_notes(note_views(self.notes@).take(i as int), hid),
                keys@.len() == vis@.len(),
                forall|k: int|
                    0 <= k < keys@.len() ==> keys@[k] as int == note_rank(
                        #[trigger] deref_views(vis@)[k],
                        pin,
                        self.session_file@,
                    ),
            decreases self.notes.len() - i,
        {
            let n = &self.notes[i];
            let ghost before = deref_views(vis@);
            let ghost nv = note_views(self.notes@);
            assert(nv.take(i + 1).drop_last() =~= nv.take(i as int));
            assert(nv.take(i + 1).last() == n@);
            if !contains_name(&self.hidden, &n.name) {
                let pinned = contains_name(&self.pinned, &n.name);
                let session = md_file_name(&n.name) == self.session_file;
                let mut key: u128 = n.modified as u128;
                if session {
                    key = key + 0x1_0000_0000_0000_0000u128;
                }
                if pinned {
                    key = key + 0x2_0000_0000_0000_0000u128;
                }
                vis.push(n);
                keys.push(key);
                assert(deref_views(vis@) =~= before.push(n@));
            }
            i = i + 1;
        }
        assert(note_views(self.notes@).take(i as int) =~= note_views(self.notes@));
        let ghost input = vis@;
        assert(key_ints(keys@) =~= rank_keys(deref_views(input), pin, self.session_file@));
        let sorted = stable_sort_desc(vis, &keys);
        proof {
            let p = choose|p: Seq<int>| sort_witness(input, key_ints(keys@), sorted@, p);
            assert forall|k: int| 0 <= k < p.len() implies deref_views(sorted@)[k] == deref_views(
                input,
            )[#[trigger] p[k]] by {
                assert(sorted@[k] == input[p[k]]);
            }
            assert(sort_witness(
                deref_views(input),
                key_ints(keys@),
                deref_views(sorted@),
                p,
            ));
        }
        sorted
    }
}

// ---------------------------------------------------------------- pinning

/// Pinning a note twice leaves the set of pinned notes as it was.
pub proof fn lemma_pin_twice(v: Seq<Seq<char>>, name: Seq<char>, x: Seq<char>)
    ensures
        names_contain(pin_toggled(pin_toggled(v, name), name), x) == names_contain(v, x),
{
    if names_contain(v, name) {
        let once = remove_name(v, name);
        lemma_remove_name(v, name, name);
        lemma_remove_name(v, name, x);
        lemma_push_name(once, name, x);
    } else {
        let once = v.push(name);
        lemma_push_name(v, name, name);
        lemma_push_name(v, name, x);
        lemma_remove_name(once, name, x);
    }
}

/// After pinning or unpinning, `name` is pinned exactly when it was not, and
/// every other note keeps its state.
pub proof fn lemma_pin_toggles(v: Seq<Seq<char>>, name: Seq<char>, x: Seq<char>)
    ensures
        names_contain(pin_toggled(v, name), x) == if x == name {
            !names_contain(v, name)
        } else {
            names_contain(v, x)
        },
{
    if names_contain(v, name) {
        lemma_remove_name(v, name, x);
    } else {
        lemma_push_name(v, name, x);
    }
}

// ---------------------------------------------------------------- window height

pub open spec fn clamp(x: int, lo: int, hi: int) -> int {
    if x < lo {
        lo
    } else if x > hi {
        hi
    } else {
        x
    }
}

/// Height of a content line in the panel: long lines (over 50 bytes) take two.
pub open spec fn line_height(t: Seq<char>) -> int {
    if utf8_len(t) > 50 {
        36
    } else {
        18
    }
}

pub open spec fn content_height(cs: Seq<ContentView>) -> int
    decreases cs.len(),
{
    if cs.len() == 0 {
        0
    } else {
        content_height(cs.drop_last()) + line_height(cs.last().text)
    }
}

impl OverlayView {
    /// Height of the expanded panel: header and footer, the content lines and
    /// the tasks, between 200 and 400; 0 where no note is expanded.
    pub open spec fn panel_height(self) -> int {
        if self.expanded_note is Some {
            clamp(
                50 + content_height(self.expanded_content_lines) + 24 * self.expanded_tasks.len(),
                200,
                400,
            )
        } else {
            0
        }
    }

    /// Height of the window that fits the list: top bar, input, actions, a row
    /// per visible note, the panel and the hints, between 248 and 520.
    pub open spec fn window_height(self) -> int {
        clamp(26 + 40 + 40 + 36 * self.visible().len() + self.panel_height() + 32, 248, 520)
    }
}

impl Overlay {
    /// The number of notes the list shows.
    pub fn visible_count(&self) -> (n: usize)
        ensures
            n == self@.visible().len(),
    {
        let ghost hid = names_view(self.hidden@);
        let ghost nv = note_views(self.notes@);
        let mut n: usize = 0;
        let mut i: usize = 0;
        while i < self.notes.len()
            invariant
                i <= self.notes@.len(),
                hid == names_view(self.hidden@),
                nv == note_views(self.notes@),
                n == visible_notes(nv.take(i as int), hid).len(),
                n <= i,
            decreases self.notes.len() - i,
        {
            assert(nv.take(i + 1).drop_last() =~= nv.take(i as int));
            assert(nv.take(i + 1).last() == self.notes@[i as int]@);
            if !contains_name(&self.hidden, &self.notes[i].name) {
                n = n + 1;
            }
            i = i + 1;
        }
        assert(nv.take(i as int) =~= nv);
        n
    }

    /// The window height that fits the list and the expanded panel.
    pub fn calc_window_height(&self) -> (h: u32)
        ensures
            h as int == self@.window_height(),
            248 <= h <= 520,
    {
        let note_count = self.visible_count() as u128;
        let list_height: u128 = note_count * 36;
        let panel_height: u128 = if self.expanded_note.is_some() {
            let ghost cs = content_views(self.expanded_content_lines@);
            let mut content: u128 = 0;
            let mut i: usize = 0;
            while i < self.expanded_content_lines.len()
                invariant
                    i <= self.expanded_content_lines@.len(),
                    cs == content_views(self.expanded_content_lines@),
                    content == content_height(cs.take(i as int)),
                    content <= 36 * i,
                decreases self.expanded_content_lines.len() - i,
            {
                assert(cs.take(i + 1).drop_last() =~= cs.take(i as int));
                assert(cs.take(i + 1).last() == self.expanded_content_lines@[i as int]@);
                let bytes = self.expanded_content_lines[i].text.as_str().as_bytes().len();
                if bytes > 50 {
                    content = content + 36;
                } else {
                    content = content + 18;
                }
                i = i + 1;
            }
            assert(cs.take(i as int) =~= cs);
            let task_lines: u128 = self.expanded_tasks.len() as u128 * 24;
            let total: u128 = 50 + content + task_lines;
            if total < 200 {
                200
            } else if total > 400 {
                400
            } else {
                total
            }
        } else {
            0
        };
        let total: u128 = 26 + 40 + 40 + list_height + panel_height + 32;
        if total < 248 {
            248
        } else if total > 520 {
            520
        } else {
            total as u32
        }
    }
}

// ---------------------------------------------------------------- geometry

pub open spec fn fits_i32(x: int) -> bool {
    i32::MIN <= x <= i32::MAX
}

pub open spec fn moves_north(e: ResizeEdge) -> bool {
    e == ResizeEdge::N || e == ResizeEdge::NE || e == ResizeEdge::NW
}

pub open spec fn moves_south(e: ResizeEdge) -> bool {
    e == ResizeEdge::S || e == ResizeEdge::SE || e == ResizeEdge::SW
}

pub open spec fn moves_east(e: ResizeEdge) -> bool {
    e == ResizeEdge::E || e == ResizeEdge::NE || e == ResizeEdge::SE
}

pub open spec fn moves_west(e: ResizeEdge) -> bool {
    e == ResizeEdge::W || e == ResizeEdge::NW || e == ResizeEdge::SW
}

/// New height when resizing by `dy` from height `sh`.
pub open spec fn resized_h(e: ResizeEdge, dy: int, sh: int) -> int {
    if moves_north(e) {
        clamp(sh - dy, MIN_H as int, MAX_H as int)
    } else if moves_south(e) {
        clamp(sh + dy, MIN_H as int, MAX_H as int)
    } else {
        sh
    }
}

/// New width when resizing by `dx` from width `sw`.
pub open spec fn resized_w(e: ResizeEdge, dx: int, sw: int) -> int {
    if moves_east(e) {
        clamp(sw + dx, MIN_W as int, MAX_W as int)
    } else if moves_west(e) {
        clamp(sw - dx, MIN_W as int, MAX_W as int)
    } else {
        sw
    }
}

/// The top margin while resizing: the window's right top corner is anchored,
/// so growing at the top moves the top edge up.
pub open spec fn resized_top(e: ResizeEdge, dy: int, sh: int, mt: int) -> int {
    if moves_north(e) {
        mt + (sh - resized_h(e, dy, sh))
    } else {
        mt
    }
}

/// The right margin while resizing.
pub open spec fn resized_right(e: ResizeEdge, dx: int, sw: int, mr: int) -> int {
    if moves_east(e) || moves_west(e) {
        mr + (resized_w(e, dx, sw) - sw)
    } else {
        mr
    }
}

pub open spec fn max0(x: int) -> int {
    if x < 0 {
        0
    } else {
        x
    }
}

impl OverlayView {
    /// The arithmetic of a pointer move stays within `i32` (a debug build of
    /// the program stops on an overflow there).
    pub open spec fn drag_fits(self, from_origin: (i32, i32), from_last: (i32, i32)) -> bool {
        match self.resizing {
            Some(e) => {
                let (dx, dy) = (from_origin.0 as int, from_origin.1 as int);
                let (sw, sh) = (self.resize_size_start.0 as int, self.resize_size_start.1 as int);
                &&& moves_north(e) ==> fits_i32(sh - dy) && fits_i32(
                    resized_top(e, dy, sh, self.resize_margin_start.0 as int),
                )
                &&& moves_south(e) ==> fits_i32(sh + dy)
                &&& moves_east(e) ==> fits_i32(sw + dx)
                &&& moves_west(e) ==> fits_i32(sw - dx)
                &&& fits_i32(resized_right(e, dx, sw, self.resize_margin_start.1 as int))
            },
            None => self.dragging ==> fits_i32(self.margin.0 + from_last.1) && fits_i32(
                self.margin.1 - from_last.0,
            ),
        }
    }

    /// The state after the pointer moved by `from_origin` since a resize began
    /// and by `from_last` since the last move: resizing sets the size and the
    /// margins, dragging moves the window, else nothing changes.
    pub open spec fn dragged(self, from_origin: (i32, i32), from_last: (i32, i32)) -> OverlayView {
        match self.resizing {
            Some(e) => {
                let (dx, dy) = (from_origin.0 as int, from_origin.1 as int);
                let (sw, sh) = (self.resize_size_start.0 as int, self.resize_size_start.1 as int);
                let w = resized_w(e, dx, sw);
                let h = resized_h(e, dy, sh);
                let m = (
                    max0(resized_top(e, dy, sh, self.resize_margin_start.0 as int)) as i32,
                    max0(resized_right(e, dx, sw, self.resize_margin_start.1 as int)) as i32,
                    0i32,
                    0i32,
                );
                OverlayView {
                    window_size: (w as u32, h as u32),
                    margin: m,
                    plan: seq![
                        StepView::Finish(
                            WindowTask::ResizeAndMove(w as u32, h as u32, m.0, m.1, m.2, m.3),
                        ),
                    ],
                    awaiting: Awaiting::Nothing,
                    ..self
                }
            },
            None => if self.dragging {
                let m = (
                    max0(self.margin.0 + from_last.1) as i32,
                    max0(self.margin.1 - from_last.0) as i32,
                    0i32,
                    0i32,
                );
                OverlayView {
                    margin: m,
                    plan: seq![StepView::Finish(WindowTask::Move(m.0, m.1, m.2, m.3))],
                    awaiting: Awaiting::Nothing,
                    ..self
                }
            } else {
                OverlayView { plan: Seq::empty(), awaiting: Awaiting::Nothing, ..self }
            },
        }
    }
}

fn clamp_i64(x: i64, lo: i64, hi: i64) -> (r: i64)
    requires
        lo <= hi,
    ensures
        r == clamp(x as int, lo as int, hi as int),
{
    if x < lo {
        lo
    } else if x > hi {
        hi
    } else {
        x
    }
}

fn max0_i64(x: i64) -> (r: i64)
    ensures
        r == max0(x as int),
{
    if x < 0 {
        0
    } else {
        x
    }
}

impl Overlay {
    /// Whether the arithmetic of a pointer move stays within `i32`.
    pub fn drag_fits(&self, from_origin: (i32, i32), from_last: (i32, i32)) -> (b: bool)
        requires
            self@.wf(),
        ensures
            b == self@.drag_fits(from_origin, from_last),
    {
        let fits = |x: i64| -> (b: bool)
            ensures
                b == fits_i32(x as int),
            { -2147483648i64 <= x && x <= 2147483647i64 };
        match self.resizing {
            Some(e) => {
                let dx = from_origin.0 as i64;
                let dy = from_origin.1 as i64;
                let sw = self.resize_size_start.0 as i64;
                let sh = self.resize_size_start.1 as i64;
                let north = e == ResizeEdge::N || e == ResizeEdge::NE || e == ResizeEdge::NW;
                let south = e == ResizeEdge::S || e == ResizeEdge::SE || e == ResizeEdge::SW;
                let east = e == ResizeEdge::E || e == ResizeEdge::NE || e == ResizeEdge::SE;
                let west = e == ResizeEdge::W || e == ResizeEdge::NW || e == ResizeEdge::SW;
                let new_h = if north {
                    clamp_i64(sh - dy, MIN_H as i64, MAX_H as i64)
                } else if south {
                    clamp_i64(sh + dy, MIN_H as i64, MAX_H as i64)
                } else {
                    sh
                };
                let new_w = if east {
                    clamp_i64(sw + dx, MIN_W as i64, MAX_W as i64)
                } else if west {
                    clamp_i64(sw - dx, MIN_W as i64, MAX_W as i64)
                } else {
                    sw
                };
                let mt = if north {
                    self.resize_margin_start.0 as i64 + (sh - new_h)
                } else {
                    self.resize_margin_start.0 as i64
                };
                let mr = if east || west {
                    self.resize_margin_start.1 as i64 + (new_w - sw)
                } else {
                    self.resize_margin_start.1 as i64
                };
                (!north || (fits(sh - dy) && fits(mt))) && (!south || fits(sh + dy)) && (!east
                    || fits(sw + dx)) && (!west || fits(sw - dx)) && fits(mr)
            },
            None => !self.dragging || (fits(self.margin.0 as i64 + from_last.1 as i64) && fits(
                self.margin.1 as i64 - from_last.0 as i64,
            )),
        }
    }

    /// The pointer moved: `from_origin` since the resize began, `from_last`
    /// since the previous move (whole pixels).
    pub fn on_drag_moved(&mut self, from_origin: (i32, i32), from_last: (i32, i32))
        requires
            old(self)@.wf(),
            old(self)@.drag_fits(from_origin, from_last),
        ensures
            final(self)@ == old(self)@.dragged(from_origin, from_last),
            final(self)@.wf(),
    {
        match self.resizing {
            Some(e) => {
                let dx = from_origin.0 as i64;
                let dy = from_origin.1 as i64;
                let sw = self.resize_size_start.0 as i64;
                let sh = self.resize_size_start.1 as i64;
                let north = e == ResizeEdge::N || e == ResizeEdge::NE || e == ResizeEdge::NW;
                let south = e == ResizeEdge::S || e == ResizeEdge::SE || e == ResizeEdge::SW;
                let east = e == ResizeEdge::E || e == ResizeEdge::NE || e == ResizeEdge::SE;
                let west = e == ResizeEdge::W || e == ResizeEdge::NW || e == ResizeEdge::SW;
                let mut new_w = sw;
                let mut new_h = sh;
                let mut mt = self.resize_margin_start.0 as i64;
                let mut mr = self.resize_margin_start.1 as i64;
                if north {
                    new_h = clamp_i64(sh - dy, MIN_H as i64, MAX_H as i64);
                    mt = mt + (sh - new_h);
                }
                if south {
                    new_h = clamp_i64(sh + dy, MIN_H as i64, MAX_H as i64);
                }
                if east {
                    new_w = clamp_i64(sw + dx, MIN_W as i64, MAX_W as i64);
                    mr = mr + (new_w - sw);
                }
                if west {
                    new_w = clamp_i64(sw - dx, MIN_W as i64, MAX_W as i64);
                    mr = mr + (new_w - sw);
                }
                let m0 = max0_i64(mt) as i32;
                let m1 = max0_i64(mr) as i32;
                self.window_size = (new_w as u32, new_h as u32);
                self.margin = (m0, m1, 0, 0);
                self.plan = vec![
                    Step::Finish(
                        WindowTask::ResizeAndMove(new_w as u32, new_h as u32, m0, m1, 0, 0),
                    ),
                ];
                self.awaiting = Awaiting::Nothing;
                assert(self@.plan =~= old(self)@.dragged(from_origin, from_last).plan);
            },
            None => {
                if self.dragging {
                    let m0 = max0_i64(self.margin.0 as i64 + from_last.1 as i64) as i32;
                    let m1 = max0_i64(self.margin.1 as i64 - from_last.0 as i64) as i32;
                    self.margin = (m0, m1, 0, 0);
                    self.plan = vec![Step::Finish(WindowTask::Move(m0, m1, 0, 0))];
                    self.awaiting = Awaiting::Nothing;
                    assert(self@.plan =~= old(self)@.dragged(from_origin, from_last).plan);
                } else {
                    self.plan = Vec::new();
                    self.awaiting = Awaiting::Nothing;
                    assert(self@.plan =~= Seq::<StepView>::empty());
                }
            },
        }
    }
}

// ---------------------------------------------------------------- the plan

impl OverlayView {
    /// The state with a new plan and nothing awaited.
    pub open spec fn with_plan(self, p: Seq<StepView>) -> OverlayView {
        OverlayView { plan: p, awaiting: Awaiting::Nothing, ..self }
    }

    /// The state with no note expanded and nothing being edited.
    pub open spec fn collapsed(self) -> OverlayView {
        OverlayView {
            expanded_note: None,
            expanded_tasks: Seq::empty(),
            expanded_content_lines: Seq::empty(),
            editing_line: None,
            ..self
        }
    }
}

/// Line `idx` of `content` (`lines().nth(idx)`), empty where there is none.
pub open spec fn nth_line(content: Seq<char>, idx: int) -> Seq<char> {
    if 0 <= idx < lines(content).len() {
        lines(content)[idx]
    } else {
        Seq::empty()
    }
}

/// Takes the next step of the plan: the state after it and the command for
/// the program. Steps that read the expanded note are passed over where no
/// note is expanded; fitting the window, or an empty plan, ends the action.
pub open spec fn advance(v: OverlayView) -> (OverlayView, CommandView)
    decreases v.plan.len(),
{
    if v.plan.len() == 0 {
        (v.with_plan(Seq::empty()), CommandView::Finish(WindowTask::Nothing))
    } else {
        let rest = OverlayView { plan: v.plan.drop_first(), ..v };
        match v.plan[0] {
            StepView::Perform(c) => (OverlayView { awaiting: Awaiting::Acknowledge, ..rest }, c),
            StepView::Append { filename, text } => (
                OverlayView { awaiting: Awaiting::Append, ..rest },
                CommandView::AppendToNote { filename, text },
            ),
            StepView::Refresh => (
                OverlayView { awaiting: Awaiting::Notes, ..rest },
                CommandView::LoadNotes,
            ),
            StepView::Reload => match v.expanded_note {
                Some(n) => (
                    OverlayView { awaiting: Awaiting::Reload, ..rest },
                    CommandView::ReadNote { filename: md_file(n) },
                ),
                None => advance(rest),
            },
            StepView::Expand => match v.expanded_note {
                Some(n) => (
                    OverlayView { awaiting: Awaiting::Expand, ..rest },
                    CommandView::ReadNote { filename: md_file(n) },
                ),
                None => advance(rest),
            },
            StepView::EditValue { line_index, is_task, was_done } => match v.expanded_note {
                Some(n) => (
                    OverlayView {
                        awaiting: Awaiting::EditValue { line_index, is_task, was_done },
                        ..rest
                    },
                    CommandView::ReadNote { filename: md_file(n) },
                ),
                None => advance(
                    OverlayView {
                        editing_line: Some(
                            EditingView { line_index, value: Seq::empty(), is_task, was_done },
                        ),
                        ..rest
                    },
                ),
            },
            StepView::Fit => (
                rest.with_plan(Seq::empty()),
                CommandView::Finish(WindowTask::Resize(DEFAULT_W, rest.window_height() as u32)),
            ),
            StepView::Finish(t) => (rest.with_plan(Seq::empty()), CommandView::Finish(t)),
        }
    }
}

/// `"✓"`, `"✗ "`
pub open spec fn check_mark() -> Seq<char> {
    "\u{2713}"@
}

pub open spec fn cross_mark() -> Seq<char> {
    "\u{2717} "@
}

/// The state after the program's answer to the awaited command: an append
/// that worked clears the input, marks success and then rescans the notes and
/// rereads the expanded one; one that failed shows the error; a scan replaces
/// the notes; a read of the expanded note shows its tasks and other lines
/// (a failed reread keeps what was shown, a failed first read shows nothing);
/// a read for editing takes the line to edit (a task line without its
/// checkbox, see `edit_value`). An answer that does not fit
/// what is awaited changes nothing.
pub open spec fn apply_response(v: OverlayView, r: ResponseView) -> OverlayView {
    let w = OverlayView { awaiting: Awaiting::Nothing, ..v };
    match (v.awaiting, r) {
        (Awaiting::Append, ResponseView::Appended(Ok(()))) => OverlayView {
            status_msg: check_mark(),
            input_value: Seq::empty(),
            plan: seq![StepView::Refresh, StepView::Reload] + v.plan,
            ..w
        },
        (Awaiting::Append, ResponseView::Appended(Err(e))) => OverlayView {
            status_msg: cross_mark() + e,
            ..w
        },
        (Awaiting::Notes, ResponseView::Notes(ns)) => OverlayView { notes: ns, ..w },
        (Awaiting::Reload, ResponseView::Read(Ok(c))) => OverlayView {
            expanded_tasks: tasks_of_lines(lines(c)),
            expanded_content_lines: content_of_lines(lines(c), front_matter_lines(c) as int),
            ..w
        },
        (Awaiting::Expand, ResponseView::Read(Ok(c))) => OverlayView {
            expanded_tasks: tasks_of_lines(lines(c)),
            expanded_content_lines: content_of_lines(lines(c), front_matter_lines(c) as int),
            ..w
        },
        (Awaiting::Expand, ResponseView::Read(Err(_))) => OverlayView {
            expanded_tasks: Seq::empty(),
            expanded_content_lines: Seq::empty(),
            ..w
        },
        (
            Awaiting::EditValue { line_index, is_task, was_done },
            ResponseView::Read(rd),
        ) => OverlayView {
            editing_line: Some(
                EditingView {
                    line_index,
                    value: match rd {
                        Ok(c) => edit_value(nth_line(c, line_index as int), is_task),
                        Err(_) => Seq::empty(),
                    },
                    is_task,
                    was_done,
                },
            ),
            ..w
        },
        _ => w,
    }
}

/// Line `idx` of `content`, empty where there is none.
pub fn line_of(content: &str, idx: usize) -> (r: String)
    ensures
        r@ == nth_line(content@, idx as int),
{
    let v = chars_of(content);
    let spans = line_spans(&v);
    if idx < spans.len() {
        let sp = spans[idx];
        assert(span(v@, spans@[idx as int]) == lines(v@)[idx as int]);
        string_of(&sub_vec(&v, sp.0, sp.1))
    } else {
        String::new()
    }
}

impl Overlay {
    /// The next command of the action in progress.
    pub fn next_command(&mut self) -> (c: Command)
        ensures
            (final(self)@, c@) == advance(old(self)@),
            old(self)@.wf() ==> final(self)@.wf(),
    {
        loop
            invariant
                advance(self@) == advance(old(self)@),
                self@.wf() == old(self)@.wf(),
            decreases self.plan@.len(),
        {
            if self.plan.len() == 0 {
                self.awaiting = Awaiting::Nothing;
                assert(self@.plan =~= Seq::<StepView>::empty());
                return Command::Finish(WindowTask::Nothing);
            }
            let ghost before = self@;
            let step = self.plan.remove(0);
            assert(self@.plan =~= before.plan.drop_first());
            assert(before.plan[0] == step@);
            match step {
                Step::Perform(c) => {
                    self.awaiting = Awaiting::Acknowledge;
                    return c;
                },
                Step::Append { filename, text } => {
                    self.awaiting = Awaiting::Append;
                    return Command::AppendToNote { filename, text };
                },
                Step::Refresh => {
                    self.awaiting = Awaiting::Notes;
                    return Command::LoadNotes;
                },
                Step::Reload => {
                    let f = match &self.expanded_note {
                        Some(n) => Some(md_file_name(n)),
                        None => None,
                    };
                    if let Some(filename) = f {
                        self.awaiting = Awaiting::Reload;
                        return Command::ReadNote { filename };
                    }
                },
                Step::Expand => {
                    let f = match &self.expanded_note {
                        Some(n) => Some(md_file_name(n)),
                        None => None,
                    };
                    if let Some(filename) = f {
                        self.awaiting = Awaiting::Expand;
                        return Command::ReadNote { filename };
                    }
                },
                Step::EditValue { line_index, is_task, was_done } => {
                    let f = match &self.expanded_note {
                        Some(n) => Some(md_file_name(n)),
                        None => None,
                    };
                    if let Some(filename) = f {
                        self.awaiting = Awaiting::EditValue { line_index, is_task, was_done };
                        return Command::ReadNote { filename };
                    }
                    self.editing_line = Some(
                        EditingLine { line_index, value: String::new(), is_task, was_done },
                    );
                },
                Step::Fit => {
                    self.plan = Vec::new();
                    self.awaiting = Awaiting::Nothing;
                    assert(self@.plan =~= Seq::<StepView>::empty());
                    let h = self.calc_window_height();
                    return Command::Finish(WindowTask::Resize(DEFAULT_W, h));
                },
                Step::Finish(t) => {
                    self.plan = Vec::new();
                    self.awaiting = Awaiting::Nothing;
                    assert(self@.plan =~= Seq::<StepView>::empty());
                    return Command::Finish(t);
                },
            }
        }
    }

    /// Hands back the program's answer to the last command and returns the
    /// next command.
    pub fn resume(&mut self, resp: Response) -> (c: Command)
        ensures
            (final(self)@, c@) == advance(apply_response(old(self)@, resp@)),
            old(self)@.wf() ==> final(self)@.wf(),
    {
        let awaiting = self.awaiting;
        self.awaiting = Awaiting::Nothing;
        match (awaiting, resp) {
            (Awaiting::Append, Response::Appended(Ok(()))) => {
                self.status_msg = String::from_str("\u{2713}");
                self.input_value = String::new();
                let mut p = vec![Step::Refresh, Step::Reload];
                let ghost old_plan = self@.plan;
                p.append(&mut self.plan);
                self.plan = p;
                assert(self@.plan =~= seq![StepView::Refresh, StepView::Reload] + old_plan);
            },
            (Awaiting::Append, Response::Appended(Err(e))) => {
                let mut m = String::from_str("\u{2717} ");
                m.append(e.as_str());
                self.status_msg = m;
            },
            (Awaiting::Notes, Response::Notes(ns)) => {
                self.notes = ns;
            },
            (Awaiting::Reload, Response::Read(Ok(c))) => {
                self.expanded_tasks = parse_tasks(c.as_str());
                self.expanded_content_lines = parse_content_lines(c.as_str());
            },
            (Awaiting::Expand, Response::Read(Ok(c))) => {
                self.expanded_tasks = parse_tasks(c.as_str());
                self.expanded_content_lines = parse_content_lines(c.as_str());
            },
            (Awaiting::Expand, Response::Read(Err(_))) => {
                self.expanded_tasks = Vec::new();
                self.expanded_content_lines = Vec::new();
                assert(self@.expanded_tasks =~= Seq::<TaskView>::empty());
                assert(self@.expanded_content_lines =~= Seq::<ContentView>::empty());
            },
            (Awaiting::EditValue { line_index, is_task, was_done }, Response::Read(rd)) => {
                let value = match rd {
                    Ok(c) => edit_value_of(line_of(c.as_str(), line_index), is_task),
                    Err(_) => String::new(),
                };
                self.editing_line = Some(EditingLine { line_index, value, is_task, was_done });
            },
            _ => {},
        }
        assert(self@ == apply_response(old(self)@, resp@));
        self.next_command()
    }
}

// ---------------------------------------------------------------- actions

/// The title of a note being created from the input: trimmed, lower-cased,
/// with spaces and slashes turned into dashes.
pub open spec fn note_title(input: Seq<char>) -> Seq<char> {
    dashed(lowercased(trim(input)))
}

/// The text an edited line is saved as: a task keeps its prefix (`- [x] `
/// or `- [ ] ` as it was) before the trimmed text; another line is saved as
/// typed.
pub open spec fn edited_text(el: EditingView) -> Seq<char> {
    if el.is_task {
        (if el.was_done {
            "- [x] "@
        } else {
            "- [ ] "@
        }) + trim(el.value)
    } else {
        el.value
    }
}

impl OverlayView {
    /// Saving the line being edited: it is no longer edited, and where a note
    /// is expanded the line is written to it, which is then reread, and the
    /// notes are rescanned.
    pub open spec fn saved_edit(self) -> OverlayView {
        match self.editing_line {
            None => self.with_plan(Seq::empty()),
            Some(el) => {
                let v = OverlayView { editing_line: None, ..self };
                match self.expanded_note {
                    Some(n) => v.with_plan(
                        seq![
                            StepView::Perform(
                                CommandView::ReplaceLine {
                                    filename: md_file(n),
                                    line_index: el.line_index,
                                    text: edited_text(el),
                                },
                            ),
                            StepView::Reload,
                            StepView::Refresh,
                        ],
                    ),
                    None => v.with_plan(Seq::empty()),
                }
            },
        }
    }

    /// Creating a note from the input: an empty title only leaves creation;
    /// another makes `title.md` (where it does not exist), selects it as the
    /// destination, clears the input and rescans the notes.
    pub open spec fn created(self) -> OverlayView {
        let t = note_title(self.input_value);
        if t.len() == 0 {
            OverlayView { mode: OverlayMode::Normal, ..self }.with_plan(Seq::empty())
        } else {
            OverlayView {
                selected_file: md_file(t),
                mode: OverlayMode::Normal,
                input_value: Seq::empty(),
                ..self
            }.with_plan(
                seq![
                    StepView::Perform(CommandView::CreateNoteFile { filename: md_file(t) }),
                    StepView::Refresh,
                ],
            )
        }
    }

    /// Enter in the input: creates a note while creating one; otherwise
    /// appends the trimmed input to the destination note, unless it is empty.
    pub open spec fn submitted(self) -> OverlayView {
        if self.mode == OverlayMode::CreatingNote {
            self.created()
        } else if trim(self.input_value).len() > 0 {
            self.with_plan(
                seq![
                    StepView::Append { filename: self.selected_file, text: trim(self.input_value) },
                ],
            )
        } else {
            self.with_plan(Seq::empty())
        }
    }

    /// Clicking the note at `idx` of the shown list `shown`: the expanded note
    /// collapses; another note is expanded (read) and becomes the destination;
    /// then the window fits the list.
    pub open spec fn clicked(self, shown: Seq<NoteView>, idx: int) -> OverlayView {
        if 0 <= idx < shown.len() {
            let name = shown[idx].name;
            if self.expanded_note == Some(name) {
                self.collapsed().with_plan(seq![StepView::Fit])
            } else {
                OverlayView {
                    selected_file: md_file(name),
                    expanded_note: Some(name),
                    ..self
                }.with_plan(seq![StepView::Expand, StepView::Fit])
            }
        } else {
            self.with_plan(seq![StepView::Fit])
        }
    }

    /// Escape undoes the innermost thing going on: an edit, then the context
    /// menu, then the expanded note (the window then fits the list), then note
    /// creation; with none of these it clears the input and the status and
    /// makes the session note the destination again.
    pub open spec fn escaped(self) -> OverlayView {
        if self.editing_line is Some {
            OverlayView { editing_line: None, ..self }.with_plan(Seq::empty())
        } else if self.ctx_menu is Some {
            OverlayView { ctx_menu: None, ..self }.with_plan(Seq::empty())
        } else if self.expanded_note is Some {
            self.collapsed().with_plan(seq![StepView::Fit])
        } else if self.mode == OverlayMode::CreatingNote {
            OverlayView {
                mode: OverlayMode::Normal,
                input_value: Seq::empty(),
                ..self
            }.with_plan(Seq::empty())
        } else {
            OverlayView {
                input_value: Seq::empty(),
                status_msg: Seq::empty(),
                selected_file: self.session_file,
                ..self
            }.with_plan(Seq::empty())
        }
    }

    /// Deleting the note `name` once confirmed: its file goes, it stops being
    /// the destination (the session note takes over) and being expanded, it
    /// leaves the pinned and hidden lists, which are saved, and the notes are
    /// rescanned.
    pub open spec fn deleted(self, name: Seq<char>) -> OverlayView {
        let v1 = if self.selected_file == md_file(name) {
            OverlayView { selected_file: self.session_file, ..self }
        } else {
            self
        };
        let v2 = if self.expanded_note == Some(name) {
            v1.collapsed()
        } else {
            v1
        };
        OverlayView {
            pinned: remove_name(self.pinned, name),
            hidden: remove_name(self.hidden, name),
            ctx_menu: None,
            ..v2
        }.with_plan(
            seq![
                StepView::Perform(CommandView::DeleteNoteFile { filename: md_file(name) }),
                StepView::Perform(CommandView::SavePanel),
                StepView::Refresh,
            ],
        )
    }
}

/// `edited_text` of the line being edited.
fn edited_line_text(el: &EditingLine) -> (r: String)
    ensures
        r@ == edited_text(
            EditingView {
                line_index: el.line_index,
                value: el.value@,
                is_task: el.is_task,
                was_done: el.was_done,
            },
        ),
{
    if el.is_task {
        let v = chars_of(el.value.as_str());
        let (a, e) = crate::text::trim_bounds(&v);
        let t = string_of(&sub_vec(&v, a, e));
        let mut r = if el.was_done {
            String::from_str("- [x] ")
        } else {
            String::from_str("- [ ] ")
        };
        r.append(t.as_str());
        r
    } else {
        el.value.clone()
    }
}

/// `s` trimmed.
fn trimmed_string(s: &String) -> (r: String)
    ensures
        r@ == trim(s@),
{
    let v = chars_of(s.as_str());
    let (a, e) = crate::text::trim_bounds(&v);
    string_of(&sub_vec(&v, a, e))
}

/// Spaces and slashes turned into dashes.
pub open spec fn dashed(s: Seq<char>) -> Seq<char> {
    s.map_values(|c: char| if c == ' ' || c == '/' { '-' } else { c })
}

/// The title of a note being created from `input`.
pub fn note_title_of(input: &String) -> (r: String)
    ensures
        r@ == note_title(input@),
        trim(input@).len() == 0 ==> r@.len() == 0,
{
    let t = trimmed_string(input);
    let low = to_lowercase(t.as_str());
    let r = dashed_title(low.as_str());
    assert(r@ =~= note_title(input@));
    r
}

/// A lower-cased title with spaces and slashes turned into dashes.
pub fn dashed_title(low: &str) -> (r: String)
    ensures
        r@ == dashed(low@),
{
    let v = chars_of(low);
    let mut out: Vec<char> = Vec::new();
    let mut i: usize = 0;
    while i < v.len()
        invariant
            i <= v@.len(),
            out@ == dashed(v@.take(i as int)),
        decreases v.len() - i,
    {
        let c = v[i];
        out.push(if c == ' ' || c == '/' { '-' } else { c });
        assert(dashed(v@.take(i + 1)) =~= out@);
        i = i + 1;
    }
    assert(v@.take(i as int) =~= v@);
    string_of(&out)
}

impl Overlay {
    /// A fresh overlay: normal input, the session note as destination, the
    /// pinned and hidden notes and the window size (clamped to its bounds; the
    /// default where none was saved) from the saved panel state.
    pub fn new(notes_dir: String, notes: Vec<NoteInfo>, session_file: String, panel: PanelState) -> (o:
        Overlay)
        ensures
            o@.wf(),
            o@ == (OverlayView {
                mode: OverlayMode::Normal,
                input_value: Seq::empty(),
                notes: note_views(notes@),
                notes_dir: notes_dir@,
                status_msg: Seq::empty(),
                selected_file: session_file@,
                session_file: session_file@,
                pinned: names_view(panel.pinned@),
                hidden: names_view(panel.hidden@),
                ctx_menu: None,
                expanded_note: None,
                expanded_tasks: Seq::empty(),
                expanded_content_lines: Seq::empty(),
                editing_line: None,
                dragging: false,
                drag_hovered: false,
                window_size: (
                    if panel.window_w > 0 {
                        clamp(panel.window_w as int, MIN_W as int, MAX_W as int) as u32
                    } else {
                        DEFAULT_W
                    },
                    if panel.window_h > 0 {
                        clamp(panel.window_h as int, MIN_H as int, MAX_H as int) as u32
                    } else {
                        DEFAULT_H
                    },
                ),
                resizing: None,
                resize_size_start: (0, 0),
                resize_margin_start: (0, 0),
                margin: (0, 0, 0, 0),
                plan: Seq::empty(),
                awaiting: Awaiting::Nothing,
            }),
    {
        let w = if panel.window_w > 0 {
            clamp_i64(panel.window_w as i64, MIN_W as i64, MAX_W as i64) as u32
        } else {
            DEFAULT_W
        };
        let h = if panel.window_h > 0 {
            clamp_i64(panel.window_h as i64, MIN_H as i64, MAX_H as i64) as u32
        } else {
            DEFAULT_H
        };
        let o = Overlay {
            mode: OverlayMode::Normal,
            input_value: String::new(),
            notes,
            notes_dir,
            status_msg: String::new(),
            selected_file: session_file.clone(),
            session_file,
            pinned: panel.pinned,
            hidden: panel.hidden,
            ctx_menu: None,
            expanded_note: None,
            expanded_tasks: Vec::new(),
            expanded_content_lines: Vec::new(),
            editing_line: None,
            dragging: false,
            drag_hovered: false,
            window_size: (w, h),
            resizing: None,
            resize_size_start: (0, 0),
            resize_margin_start: (0, 0),
            margin: (0, 0, 0, 0),
            plan: Vec::new(),
            awaiting: Awaiting::Nothing,
        };
        assert(o@.plan =~= Seq::<StepView>::empty());
        assert(o@.expanded_tasks =~= Seq::<TaskView>::empty());
        assert(o@.expanded_content_lines =~= Seq::<ContentView>::empty());
        o
    }

    fn set_plan(&mut self, p: Vec<Step>)
        ensures
            final(self)@ == old(self)@.with_plan(p@.map_values(|s: Step| s@)),
    {
        self.plan = p;
        self.awaiting = Awaiting::Nothing;
    }

    fn clear_plan(&mut self)
        ensures
            final(self)@ == old(self)@.with_plan(Seq::empty()),
    {
        self.plan = Vec::new();
        self.awaiting = Awaiting::Nothing;
        assert(self@.plan =~= Seq::<StepView>::empty());
    }

    fn collapse_note(&mut self)
        ensures
            final(self)@ == old(self)@.collapsed(),
    {
        self.expanded_note = None;
        self.expanded_tasks = Vec::new();
        self.expanded_content_lines = Vec::new();
        self.editing_line = None;
        assert(self@.expanded_tasks =~= Seq::<TaskView>::empty());
        assert(self@.expanded_content_lines =~= Seq::<ContentView>::empty());
    }

    /// The input line changed.
    pub fn on_input_changed(&mut self, val: String)
        ensures
            old(self)@.wf() ==> final(self)@.wf(),
            final(self)@ == (OverlayView { input_value: val@, ..old(self)@ }).with_plan(
                Seq::empty(),
            ),
    {
        self.input_value = val;
        self.clear_plan();
    }

    /// Enter in the input line (see `submitted`).
    pub fn on_input_submitted(&mut self)
        ensures
            old(self)@.wf() ==> final(self)@.wf(),
            final(self)@ == old(self)@.submitted(),
    {
        if self.mode == OverlayMode::CreatingNote {
            self.on_create_note();
            return;
        }
        let trimmed = trimmed_string(&self.input_value);
        if !trimmed.as_str().is_empty() {
            let filename = self.selected_file.clone();
            self.set_plan(vec![Step::Append { filename, text: trimmed }]);
            assert(self@.plan =~= old(self)@.submitted().plan);
        } else {
            self.clear_plan();
        }
    }

    /// The create button, or Enter while creating (see `created`).
    pub fn on_create_note(&mut self)
        ensures
            old(self)@.wf() ==> final(self)@.wf(),
            final(self)@ == old(self)@.created(),
            trim(old(self)@.input_value).len() == 0 ==> final(self)@ == (OverlayView {
                mode: OverlayMode::Normal,
                ..old(self)@
            }).with_plan(Seq::empty()),
    {
        let titulo = note_title_of(&self.input_value);
        if titulo.as_str().is_empty() {
            self.mode = OverlayMode::Normal;
            self.clear_plan();
            return;
        }
        let filename = md_file_name(&titulo);
        self.selected_file = filename.clone();
        self.mode = OverlayMode::Normal;
        self.input_value = String::new();
        self.set_plan(vec![Step::Perform(Command::CreateNoteFile { filename }), Step::Refresh]);
        assert(self@.plan =~= old(self)@.created().plan);
    }

    /// A click on the note at `idx` of the shown list (see `clicked`).
    pub fn on_note_clicked(&mut self, idx: usize)
        ensures
            old(self)@.wf() ==> final(self)@.wf(),
            exists|shown: Seq<NoteView>|
                #[trigger] old(self)@.shown_order(shown) && final(self)@ == old(self)@.clicked(
                    shown,
                    idx as int,
                ),
    {
        let notes = self.sorted_visible_notes();
        let ghost shown = deref_views(notes@);
        if idx < notes.len() {
            let name = notes[idx].name.clone();
            assert(name@ == shown[idx as int].name);
            let is_expanded = match &self.expanded_note {
                Some(n) => *n == name,
                None => false,
            };
            if is_expanded {
                self.collapse_note();
                self.set_plan(vec![Step::Fit]);
                assert(self@.plan =~= seq![StepView::Fit]);
            } else {
                self.selected_file = md_file_name(&name);
                self.expanded_note = Some(name);
                self.set_plan(vec![Step::Expand, Step::Fit]);
                assert(self@.plan =~= seq![StepView::Expand, StepView::Fit]);
            }
        } else {
            self.set_plan(vec![Step::Fit]);
            assert(self@.plan =~= seq![StepView::Fit]);
        }
        assert(self@ == old(self)@.clicked(shown, idx as int));
    }

    /// A right click, or the dots, on the note at `idx` of the shown list:
    /// opens its context menu.
    pub fn on_note_ctx_clicked(&mut self, idx: usize)
        ensures
            old(self)@.wf() ==> final(self)@.wf(),
            exists|shown: Seq<NoteView>|
                #[trigger] old(self)@.shown_order(shown) && final(self)@ == (if idx < shown.len() {
                    OverlayView { ctx_menu: Some((shown[idx as int].name, false)), ..old(self)@ }
                } else {
                    old(self)@
                }).with_plan(Seq::empty()),
    {
        let notes = self.sorted_visible_notes();
        let ghost shown = deref_views(notes@);
        if idx < notes.len() {
            let name = notes[idx].name.clone();
            self.ctx_menu = Some(CtxMenu { note_name: name, confirming_delete: false });
        }
        self.clear_plan();
    }

    /// A click on a task's checkbox: where a note is expanded, the task on that
    /// line is toggled in its file, which is reread, and the notes rescanned.
    pub fn on_task_toggled(&mut self, line_index: usize)
        ensures
            old(self)@.wf() ==> final(self)@.wf(),
            final(self)@ == old(self)@.with_plan(
                match old(self)@.expanded_note {
                    Some(n) => seq![
                        StepView::Perform(
                            CommandView::ToggleTask { filename: md_file(n), line_index },
                        ),
                        StepView::Reload,
                        StepView::Refresh,
                    ],
                    None => Seq::empty(),
                },
            ),
    {
        let f = match &self.expanded_note {
            Some(n) => Some(md_file_name(n)),
            None => None,
        };
        match f {
            Some(filename) => {
                self.set_plan(
                    vec![
                        Step::Perform(Command::ToggleTask { filename, line_index }),
                        Step::Reload,
                        Step::Refresh,
                    ],
                );
                assert(self@.plan =~= seq![
                    StepView::Perform(
                        CommandView::ToggleTask {
                            filename: md_file(old(self)@.expanded_note->0),
                            line_index,
                        },
                    ),
                    StepView::Reload,
                    StepView::Refresh,
                ]);
            },
            None => self.clear_plan(),
        }
    }

    /// Saves the line being edited (see `saved_edit`).
    fn save_editing_line(&mut self)
        ensures
            final(self)@ == old(self)@.saved_edit(),
    {
        let el = self.editing_line.take();
        match el {
            Some(el) => {
                let f = match &self.expanded_note {
                    Some(n) => Some(md_file_name(n)),
                    None => None,
                };
                match f {
                    Some(filename) => {
                        let text = edited_line_text(&el);
                        self.set_plan(
                            vec![
                                Step::Perform(
                                    Command::ReplaceLine {
                                        filename,
                                        line_index: el.line_index,
                                        text,
                                    },
                                ),
                                Step::Reload,
                                Step::Refresh,
                            ],
                        );
                        assert(self@.plan =~= old(self)@.saved_edit().plan);
                    },
                    None => self.clear_plan(),
                }
            },
            None => self.clear_plan(),
        }
    }

    /// A click on a line of the expanded note to edit it: a different line
    /// being edited is saved first; then the line is read from the note (empty
    /// where no note is expanded or the read fails) and edited.
    pub fn on_line_edit_started(&mut self, line_index: usize, is_task: bool, was_done: bool)
        ensures
            old(self)@.wf() ==> final(self)@.wf(),
            ({
                let v = if old(self)@.editing_line matches Some(el) && el.line_index
                    != line_index {
                    old(self)@.saved_edit()
                } else {
                    old(self)@.with_plan(Seq::empty())
                };
                final(self)@ == v.with_plan(
                    v.plan.push(StepView::EditValue { line_index, is_task, was_done }),
                )
            }),
    {
        let other = match &self.editing_line {
            Some(el) => el.line_index != line_index,
            None => false,
        };
        if other {
            self.save_editing_line();
        } else {
            self.clear_plan();
        }
        let ghost before = self@.plan;
        self.plan.push(Step::EditValue { line_index, is_task, was_done });
        assert(self@.plan =~= before.push(StepView::EditValue { line_index, is_task, was_done }));
    }

    /// The line being edited changed.
    pub fn on_line_edit_changed(&mut self, val: String)
        ensures
            old(self)@.wf() ==> final(self)@.wf(),
            final(self)@ == (match old(self)@.editing_line {
                Some(el) => OverlayView {
                    editing_line: Some(EditingView { value: val@, ..el }),
                    ..old(self)@
                },
                None => old(self)@,
            }).with_plan(Seq::empty()),
    {
        match &mut self.editing_line {
            Some(el) => {
                el.value = val;
            },
            None => {},
        }
        self.clear_plan();
    }

    /// Enter on the line being edited: saves it (see `saved_edit`).
    pub fn on_line_edit_submitted(&mut self)
        ensures
            old(self)@.wf() ==> final(self)@.wf(),
            final(self)@ == old(self)@.saved_edit(),
    {
        self.save_editing_line();
    }

    /// Leaves the edit without saving.
    pub fn on_line_edit_cancelled(&mut self)
        ensures
            old(self)@.wf() ==> final(self)@.wf(),
            final(self)@ == (OverlayView { editing_line: None, ..old(self)@ }).with_plan(
                Seq::empty(),
            ),
    {
        self.editing_line = None;
        self.clear_plan();
    }

    /// The canvas button.
    pub fn on_tui_clicked(&mut self)
        ensures
            old(self)@.wf() ==> final(self)@.wf(),
            final(self)@ == old(self)@.with_plan(seq![StepView::Perform(CommandView::OpenCanvas)]),
    {
        self.set_plan(vec![Step::Perform(Command::OpenCanvas)]);
        assert(self@.plan =~= seq![StepView::Perform(CommandView::OpenCanvas)]);
    }

    /// The close button: the program ends.
    pub fn on_close_clicked(&mut self)
        ensures
            old(self)@.wf() ==> final(self)@.wf(),
            final(self)@ == old(self)@.with_plan(seq![StepView::Perform(CommandView::Exit)]),
    {
        self.set_plan(vec![Step::Perform(Command::Exit)]);
        assert(self@.plan =~= seq![StepView::Perform(CommandView::Exit)]);
    }

    /// "Open in canvas" for the note called `name`.
    pub fn on_tui_for_note(&mut self, name: String)
        ensures
            old(self)@.wf() ==> final(self)@.wf(),
            final(self)@ == old(self)@.with_plan(
                seq![StepView::Perform(CommandView::OpenCanvasWith { filename: md_file(name@) })],
            ),
    {
        let filename = md_file_name(&name);
        self.set_plan(vec![Step::Perform(Command::OpenCanvasWith { filename })]);
        assert(self@.plan =~= seq![
            StepView::Perform(CommandView::OpenCanvasWith { filename: md_file(name@) }),
        ]);
    }

    /// The new-note button: the input now takes a title.
    pub fn on_new_note_clicked(&mut self)
        ensures
            old(self)@.wf() ==> final(self)@.wf(),
            final(self)@ == (OverlayView {
                mode: OverlayMode::CreatingNote,
                input_value: Seq::empty(),
                ..old(self)@
            }).with_plan(Seq::empty()),
    {
        self.mode = OverlayMode::CreatingNote;
        self.input_value = String::new();
        self.clear_plan();
    }

    /// Leaves note creation.
    pub fn on_cancel_create(&mut self)
        ensures
            old(self)@.wf() ==> final(self)@.wf(),
            final(self)@ == (OverlayView {
                mode: OverlayMode::Normal,
                input_value: Seq::empty(),
                ..old(self)@
            }).with_plan(Seq::empty()),
    {
        self.mode = OverlayMode::Normal;
        self.input_value = String::new();
        self.clear_plan();
    }

    /// Escape (see `escaped`).
    pub fn on_escape(&mut self)
        ensures
            old(self)@.wf() ==> final(self)@.wf(),
            final(self)@ == old(self)@.escaped(),
    {
        if self.editing_line.is_some() {
            self.editing_line = None;
            self.clear_plan();
        } else if self.ctx_menu.is_some() {
            self.ctx_menu = None;
            self.clear_plan();
        } else if self.expanded_note.is_some() {
            self.collapse_note();
            self.set_plan(vec![Step::Fit]);
            assert(self@.plan =~= seq![StepView::Fit]);
        } else if self.mode == OverlayMode::CreatingNote {
            self.mode = OverlayMode::Normal;
            self.input_value = String::new();
            self.clear_plan();
        } else {
            self.input_value = String::new();
            self.status_msg = String::new();
            self.selected_file = self.session_file.clone();
            self.clear_plan();
        }
    }

    /// "See in canvas" in the context menu: opens the canvas on the note and
    /// closes the menu.
    pub fn on_ctx_view_tui(&mut self, name: String)
        ensures
            old(self)@.wf() ==> final(self)@.wf(),
            final(self)@ == (OverlayView { ctx_menu: None, ..old(self)@ }).with_plan(
                seq![StepView::Perform(CommandView::OpenCanvasWith { filename: md_file(name@) })],
            ),
    {
        let filename = md_file_name(&name);
        self.ctx_menu = None;
        self.set_plan(vec![Step::Perform(Command::OpenCanvasWith { filename })]);
        assert(self@.plan =~= seq![
            StepView::Perform(CommandView::OpenCanvasWith { filename: md_file(name@) }),
        ]);
    }

    /// Pin or unpin the note called `name`, save, and close the menu.
    pub fn on_ctx_pin(&mut self, name: String)
        ensures
            old(self)@.wf() ==> final(self)@.wf(),
            final(self)@ == (OverlayView {
                pinned: pin_toggled(old(self)@.pinned, name@),
                ctx_menu: None,
                ..old(self)@
            }).with_plan(seq![StepView::Perform(CommandView::SavePanel)]),
    {
        if contains_name(&self.pinned, &name) {
            self.pinned = without_name(&self.pinned, &name);
        } else {
            let ghost before = names_view(self.pinned@);
            self.pinned.push(name);
            assert(names_view(self.pinned@) =~= before.push(name@));
        }
        self.ctx_menu = None;
        self.set_plan(vec![Step::Perform(Command::SavePanel)]);
        assert(self@.plan =~= seq![StepView::Perform(CommandView::SavePanel)]);
    }

    /// Hide the note called `name` from the panel, save, and close the menu.
    pub fn on_ctx_hide(&mut self, name: String)
        ensures
            old(self)@.wf() ==> final(self)@.wf(),
            final(self)@ == (OverlayView {
                hidden: old(self)@.hidden.push(name@),
                ctx_menu: None,
                ..old(self)@
            }).with_plan(seq![StepView::Perform(CommandView::SavePanel)]),
    {
        let ghost before = names_view(self.hidden@);
        self.hidden.push(name);
        assert(names_view(self.hidden@) =~= before.push(name@));
        self.ctx_menu = None;
        self.set_plan(vec![Step::Perform(Command::SavePanel)]);
        assert(self@.plan =~= seq![StepView::Perform(CommandView::SavePanel)]);
    }

    /// "Delete note" in the context menu: asks for confirmation.
    pub fn on_ctx_delete(&mut self, name: String)
        ensures
            old(self)@.wf() ==> final(self)@.wf(),
            final(self)@ == (OverlayView { ctx_menu: Some((name@, true)), ..old(self)@ }).with_plan(
                Seq::empty(),
            ),
    {
        self.ctx_menu = Some(CtxMenu { note_name: name, confirming_delete: true });
        self.clear_plan();
    }

    /// The deletion of the note called `name` is confirmed (see `deleted`).
    pub fn on_ctx_confirm_delete(&mut self, name: String)
        ensures
            old(self)@.wf() ==> final(self)@.wf(),
            final(self)@ == old(self)@.deleted(name@),
    {
        let filename = md_file_name(&name);
        let is_selected = self.selected_file == filename;
        if is_selected {
            self.selected_file = self.session_file.clone();
        }
        let is_expanded = match &self.expanded_note {
            Some(n) => *n == name,
            None => false,
        };
        if is_expanded {
            self.collapse_note();
        }
        self.pinned = without_name(&self.pinned, &name);
        self.hidden = without_name(&self.hidden, &name);
        self.ctx_menu = None;
        self.set_plan(
            vec![
                Step::Perform(Command::DeleteNoteFile { filename }),
                Step::Perform(Command::SavePanel),
                Step::Refresh,
            ],
        );
        assert(self@.plan =~= old(self)@.deleted(name@).plan);
    }

    /// Closes the context menu.
    pub fn on_ctx_cancel(&mut self)
        ensures
            old(self)@.wf() ==> final(self)@.wf(),
            final(self)@ == (OverlayView { ctx_menu: None, ..old(self)@ }).with_plan(Seq::empty()),
    {
        self.ctx_menu = None;
        self.clear_plan();
    }

    /// The drag bar is pressed.
    pub fn on_drag_started(&mut self)
        ensures
            old(self)@.wf() ==> final(self)@.wf(),
            final(self)@ == (OverlayView { dragging: true, ..old(self)@ }).with_plan(Seq::empty()),
    {
        self.dragging = true;
        self.clear_plan();
    }

    /// The mouse button is released: a resize is saved; dragging and resizing
    /// end.
    pub fn on_drag_ended(&mut self)
        ensures
            old(self)@.wf() ==> final(self)@.wf(),
            final(self)@ == (OverlayView { dragging: false, resizing: None, ..old(self)@ }).with_plan(
                if old(self)@.resizing is Some {
                    seq![StepView::Perform(CommandView::SavePanel)]
                } else {
                    Seq::empty()
                },
            ),
    {
        let was_resizing = self.resizing.is_some();
        self.dragging = false;
        self.resizing = None;
        if was_resizing {
            self.set_plan(vec![Step::Perform(Command::SavePanel)]);
            assert(self@.plan =~= seq![StepView::Perform(CommandView::SavePanel)]);
        } else {
            self.clear_plan();
        }
    }

    /// The pointer enters or leaves the drag bar.
    pub fn on_drag_hover(&mut self, hovered: bool)
        ensures
            old(self)@.wf() ==> final(self)@.wf(),
            final(self)@ == (OverlayView { drag_hovered: hovered, ..old(self)@ }).with_plan(
                Seq::empty(),
            ),
    {
        self.drag_hovered = hovered;
        self.clear_plan();
    }

    /// A resize zone is pressed: the resize starts from the present size and
    /// margins.
    pub fn on_resize_started(&mut self, edge: ResizeEdge)
        requires
            old(self)@.wf(),
        ensures
            final(self)@ == (OverlayView {
                resizing: Some(edge),
                resize_size_start: old(self)@.window_size,
                resize_margin_start: (old(self)@.margin.0, old(self)@.margin.1),
                ..old(self)@
            }).with_plan(Seq::empty()),
            final(self)@.wf(),
    {
        self.resizing = Some(edge);
        self.resize_size_start = self.window_size;
        self.resize_margin_start = (self.margin.0, self.margin.1);
        self.clear_plan();
    }

    /// A resize zone is released: the size is saved where a resize was going on.
    pub fn on_resize_ended(&mut self)
        ensures
            old(self)@.wf() ==> final(self)@.wf(),
            final(self)@ == (OverlayView { resizing: None, ..old(self)@ }).with_plan(
                if old(self)@.resizing is Some {
                    seq![StepView::Perform(CommandView::SavePanel)]
                } else {
                    Seq::empty()
                },
            ),
    {
        let was_resizing = self.resizing.is_some();
        self.resizing = None;
        if was_resizing {
            self.set_plan(vec![Step::Perform(Command::SavePanel)]);
            assert(self@.plan =~= seq![StepView::Perform(CommandView::SavePanel)]);
        } else {
            self.clear_plan();
        }
    }
}

} // verus!
