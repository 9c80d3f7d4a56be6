//! What a row of the note list and the expanded panel show: the texts and
//! marks, decided from the overlay's state.
use vstd::prelude::*;
use crate::bindings::{now_unix_secs, push_char};
use crate::labels::{decimal, push_decimal, relative_label, relative_time_at};
use crate::notes::{md_suffix, NoteInfo, NoteView};
use crate::overlay::{contains_name, md_file, md_file_name, names_contain, Overlay, OverlayMode, OverlayView};
use crate::text::{chars_of, match_at, matches_at, string_of};

verus! {

/// `str::replace(".md", "")` scanning from index `i`: each `.md`, found
/// left to right without overlaps, is removed.
pub open spec fn remove_md_from(s: Seq<char>, i: int) -> Seq<char>
    decreases s.len() - i,
{
    if i < 0 || i >= s.len() {
        Seq::empty()
    } else if match_at(s, md_suffix(), i) {
        remove_md_from(s, i + 3)
    } else {
        seq![s[i]] + remove_md_from(s, i + 1)
    }
}

/// `s` with every `.md` removed.
pub open spec fn remove_md(s: Seq<char>) -> Seq<char> {
    remove_md_from(s, 0)
}

/// `s` with every `.md` removed (`str::replace(".md", "")`).
pub fn without_md(s: &String) -> (r: String)
    ensures
        r@ == remove_md(s@),
{
    let v = chars_of(s.as_str());
    let md: Vec<char> = vec!['.', 'm', 'd'];
    let mut out: Vec<char> = Vec::new();
    let mut i: usize = 0;
    while i < v.len()
        invariant
            i <= v@.len() + 3,
            md@ == md_suffix(),
            out@ + remove_md_from(v@, i as int) == remove_md(v@),
        decreases v.len() + 3 - i,
    {
        if matches_at(&v, i, &md) {
            i = i + 3;
        } else {
            let ghost before = out@;
            out.push(v[i]);
            assert(before + remove_md_from(v@, i as int) =~= out@ + remove_md_from(v@, i + 1));
            i = i + 1;
        }
    }
    assert(remove_md_from(v@, i as int) =~= Seq::<char>::empty());
    assert(out@ + Seq::<char>::empty() =~= out@);
    string_of(&out)
}

/// The second text of a note's row: its finished and total tasks where it
/// has tasks, otherwise how long ago (at time `now`) it was modified.
pub open spec fn sub_text(n: NoteView, now: u64) -> Seq<char> {
    if n.task_count > 0 {
        "\u{2713} "@ + decimal(n.tasks_done as nat) + seq!['/'] + decimal(n.task_count as nat)
    } else {
        relative_label(n.modified, now)
    }
}

/// The second text of a note's row at time `now`.
pub fn note_sub_text_at(n: &NoteInfo, now: u64) -> (r: String)
    ensures
        r@ == sub_text(n@, now),
{
    if n.task_count > 0 {
        let mut s = String::from_str("\u{2713} ");
        push_decimal(&mut s, n.tasks_done as u64);
        push_char(&mut s, '/');
        push_decimal(&mut s, n.task_count as u64);
        s
    } else {
        relative_time_at(n.modified, now)
    }
}

/// The second text of a note's row, by the system clock.
pub fn note_sub_text(n: &NoteInfo) -> (r: String)
    ensures
        exists|now: u64| r@ == sub_text(n@, now),
{
    let now = now_unix_secs();
    note_sub_text_at(n, now)
}

/// How a row is marked: the note is the destination, the session note,
/// pinned, expanded.
pub struct RowMarks {
    pub selected: bool,
    pub session: bool,
    pub pinned: bool,
    pub expanded: bool,
}

/// `"→ "`
pub open spec fn arrow() -> Seq<char> {
    "\u{2192} "@
}

impl OverlayView {
    /// The marks of the row of the note called `name`.
    pub open spec fn marks(self, name: Seq<char>) -> RowMarks {
        RowMarks {
            selected: md_file(name) == self.selected_file,
            session: md_file(name) == self.session_file,
            pinned: names_contain(self.pinned, name),
            expanded: self.expanded_note == Some(name),
        }
    }

    /// What the input line shows of the destination, with whether it is
    /// another note than the session's: while creating a note, nothing; a
    /// chosen note as an arrow and its name; otherwise the session note's name.
    pub open spec fn destination(self) -> Option<(Seq<char>, bool)> {
        if self.mode != OverlayMode::Normal {
            None
        } else if self.selected_file != self.session_file {
            Some((arrow() + remove_md(self.selected_file), true))
        } else {
            Some((remove_md(self.session_file), false))
        }
    }
}

/// Number of tasks of `ts` that are done (`done` true) or open.
pub open spec fn count_done(ts: Seq<crate::tasks::TaskView>, done: bool) -> nat
    decreases ts.len(),
{
    if ts.len() == 0 {
        0
    } else {
        count_done(ts.drop_last(), done) + if ts.last().done == done {
            1nat
        } else {
            0nat
        }
    }
}

/// The footer of the expanded panel: open and finished tasks.
pub open spec fn footer_text(ts: Seq<crate::tasks::TaskView>) -> Seq<char> {
    decimal(count_done(ts, false)) + " pend \u{b7} "@ + decimal(count_done(ts, true))
        + " completadas"@
}

/// The line under the shown content lines: how many more there are, where
/// there are more than four.
pub open spec fn more_lines_text(total: nat) -> Option<Seq<char>> {
    if total > 4 {
        Some("  \u{b7}\u{b7}\u{b7} "@ + decimal((total - 4) as nat) + " l\u{ed}neas m\u{e1}s"@)
    } else {
        None
    }
}

/// The most content lines the expanded panel shows.
pub open spec fn shown_lines_limit() -> nat {
    4
}

/// What the task section shows in place of tasks where the note has none.
pub open spec fn no_tasks_text(ts: Seq<crate::tasks::TaskView>) -> Option<Seq<char>> {
    if ts.len() == 0 {
        Some("sin tareas \u{2014} escribe algo arriba"@)
    } else {
        None
    }
}

impl Overlay {
    /// How many of the content lines the expanded panel shows: the first
    /// ones, at most four.
    pub fn shown_content_count(&self) -> (n: usize)
        ensures
            n == if self@.expanded_content_lines.len() > shown_lines_limit() {
                shown_lines_limit()
            } else {
                self@.expanded_content_lines.len()
            },
    {
        let total = self.expanded_content_lines.len();
        if total > 4 {
            4
        } else {
            total
        }
    }

    /// The placeholder of the task section (see `no_tasks_text`).
    pub fn no_tasks_label(&self) -> (r: Option<String>)
        ensures
            match r {
                Some(s) => no_tasks_text(crate::tasks::task_views(self.expanded_tasks@)) == Some(s@),
                None => no_tasks_text(crate::tasks::task_views(self.expanded_tasks@)) is None,
            },
    {
        if self.expanded_tasks.len() == 0 {
            Some(String::from_str("sin tareas \u{2014} escribe algo arriba"))
        } else {
            None
        }
    }

    /// The marks of the row of the note called `name`.
    pub fn row_marks(&self, name: &String) -> (r: RowMarks)
        ensures
            r == self@.marks(name@),
    {
        let file = md_file_name(name);
        RowMarks {
            selected: file == self.selected_file,
            session: file == self.session_file,
            pinned: contains_name(&self.pinned, name),
            expanded: match &self.expanded_note {
                Some(n) => *n == *name,
                None => false,
            },
        }
    }

    /// What the input line shows of the destination (see `destination`).
    pub fn destination_label(&self) -> (r: Option<(String, bool)>)
        ensures
            match r {
                Some((s, other)) => self@.destination() == Some((s@, other)),
                None => self@.destination() is None,
            },
    {
        if self.mode != OverlayMode::Normal {
            return None;
        }
        if self.selected_file != self.session_file {
            let mut s = String::from_str("\u{2192} ");
            let label = without_md(&self.selected_file);
            s.append(label.as_str());
            Some((s, true))
        } else {
            Some((without_md(&self.session_file), false))
        }
    }

    /// The footer of the expanded panel (see `footer_text`).
    pub fn panel_footer(&self) -> (r: String)
        ensures
            r@ == footer_text(crate::tasks::task_views(self.expanded_tasks@)),
    {
        let ghost ts = crate::tasks::task_views(self.expanded_tasks@);
        let mut pending: u64 = 0;
        let mut completed: u64 = 0;
        let mut i: usize = 0;
        while i < self.expanded_tasks.len()
            invariant
                i <= self.expanded_tasks@.len(),
                ts == crate::tasks::task_views(self.expanded_tasks@),
                pending == count_done(ts.take(i as int), false),
                completed == count_done(ts.take(i as int), true),
                pending + completed == i,
            decreases self.expanded_tasks.len() - i,
        {
            assert(ts.take(i + 1).drop_last() =~= ts.take(i as int));
            assert(ts.take(i + 1).last() == self.expanded_tasks@[i as int]@);
            if self.expanded_tasks[i].done {
                completed = completed + 1;
            } else {
                pending = pending + 1;
            }
            i = i + 1;
        }
        assert(ts.take(i as int) =~= ts);
        let mut s = String::new();
        push_decimal(&mut s, pending);
        s.append(" pend \u{b7} ");
        push_decimal(&mut s, completed);
        s.append(" completadas");
        assert(s@ =~= footer_text(ts));
        s
    }

    /// The line saying how many content lines are not shown, if any are not.
    pub fn more_lines_label(&self) -> (r: Option<String>)
        ensures
            match r {
                Some(s) => more_lines_text(self.expanded_content_lines@.len()) == Some(s@),
                None => more_lines_text(self.expanded_content_lines@.len()) is None,
            },
    {
        let total = self.expanded_content_lines.len();
        if total > 4 {
            let mut s = String::from_str("  \u{b7}\u{b7}\u{b7} ");
            push_decimal(&mut s, (total - 4) as u64);
            s.append(" l\u{ed}neas m\u{e1}s");
            Some(s)
        } else {
            None
        }
    }
}

} // verus!
