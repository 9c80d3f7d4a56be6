//! Properties of the library as a whole, each proved from the contracts'
//! spec functions.
use vstd::prelude::*;
use crate::notes::{
    appended_text, closing_delim, dashes, done_count, done_mark, done_mark_upper,
    counts_done, counts_task, front_matter_split, lemma_lines_le_pieces, line_piece, modified_keys, newest_first, open_mark,
    recent_limit, replaced_line_text, task_count, NoteView,
};
use crate::order::sort_witness;
use crate::overlay::{
    advance, apply_response, dashed, resized_h, resized_w, CommandView, edited_text, md_file, names_contain, note_rank, nth_line, rank_keys,
    visible_notes, Awaiting, EditingView, OverlayMode, OverlayView, ResizeEdge, ResponseView,
    StepView,
};
use crate::rows::count_done;
use crate::tasks::{
    content_of_lines, done_prefix, done_prefix_upper, edit_value, front_matter_lines,
    has_task_prefix, open_prefix, task_of_line, tasks_of_lines, toggled_line, toggled_text,
    ContentView, TaskView,
};
use crate::text::{
    ends_with_char, find_from, is_ws, lemma_find_from, lemma_join_split_lf, lemma_lines_no_lf,
    lemma_split_lf_join, lemma_split_lf_len, lemma_split_lf_no_lf, lemma_ws_back_bounds,
    lemma_ws_run_bounds, lines, match_at, no_lf, split_lf, starts_with, strip_cr, trim, ws_back,
    ws_run,
};

verus! {

proof fn lemma_starts_with_push(t: Seq<char>, p: Seq<char>, c: char)
    requires
        starts_with(t, p.push(c)),
    ensures
        starts_with(t, p),
{
    assert(t.take(p.len() as int) =~= t.take(p.len() + 1int).take(p.len() as int));
    assert(p.push(c).take(p.len() as int) =~= p);
}

proof fn lemma_starts_with_index(t: Seq<char>, p: Seq<char>, k: int)
    requires
        starts_with(t, p),
        0 <= k < p.len(),
    ensures
        t[k] == p[k],
{
    assert(t.take(p.len() as int)[k] == t[k]);
}

/// The trimmed text of a task line has a space at index 5.
proof fn lemma_task_space(l: Seq<char>)
    requires
        task_of_line(l) is Some,
    ensures
        trim(l).len() >= 6,
        trim(l)[5] == ' ',
{
    let t = trim(l);
    if starts_with(t, done_prefix()) {
        lemma_starts_with_index(t, done_prefix(), 5);
    } else if starts_with(t, done_prefix_upper()) {
        lemma_starts_with_index(t, done_prefix_upper(), 5);
    } else {
        lemma_starts_with_index(t, open_prefix(), 5);
    }
}

/// Every task the panel lists is counted by `count_tasks`, and every done one
/// among them as done.
pub proof fn lemma_listed_tasks_are_counted(ls: Seq<Seq<char>>)
    ensures
        tasks_of_lines(ls).len() <= task_count(ls),
        count_done(tasks_of_lines(ls), true) <= done_count(ls),
    decreases ls.len(),
{
    if ls.len() > 0 {
        lemma_listed_tasks_are_counted(ls.drop_last());
        let l = ls.last();
        let t = crate::text::trim(l);
        let r = tasks_of_lines(ls.drop_last());
        if starts_with(t, done_prefix()) {
            lemma_starts_with_push(t, done_mark(), ' ');
        }
        if starts_with(t, done_prefix_upper()) {
            lemma_starts_with_push(t, done_mark_upper(), ' ');
        }
        if starts_with(t, open_prefix()) {
            lemma_starts_with_push(t, open_mark(), ' ');
        }
        match task_of_line(l) {
            Some(td) => {
                let tv = crate::tasks::TaskView { line_index: ls.len() - 1, text: td.0, done: td.1 };
                assert(tasks_of_lines(ls) == r.push(tv));
                assert(r.push(tv).drop_last() =~= r);
            },
            None => {},
        }
    }
}

/// Every line that `count_tasks` counts as a task has a space after its
/// checkbox, as the task list asks.
pub open spec fn checkboxes_spaced(ls: Seq<Seq<char>>) -> bool {
    forall|k: int| 0 <= k < ls.len() && counts_task(#[trigger] ls[k]) ==> has_task_prefix(trim(ls[k]))
}

/// Where every counted checkbox is followed by a space, `count_tasks` and the
/// task list agree: as many tasks, and as many of them done.
pub proof fn lemma_counts_agree_with_tasks(ls: Seq<Seq<char>>)
    requires
        checkboxes_spaced(ls),
    ensures
        task_count(ls) == tasks_of_lines(ls).len(),
        done_count(ls) == count_done(tasks_of_lines(ls), true),
    decreases ls.len(),
{
    if ls.len() > 0 {
        let d = ls.drop_last();
        assert forall|k: int| 0 <= k < d.len() && counts_task(#[trigger] d[k]) implies has_task_prefix(
            trim(d[k]),
        ) by {
            assert(d[k] == ls[k]);
        }
        lemma_counts_agree_with_tasks(d);
        let l = ls.last();
        let t = trim(l);
        assert(l == ls[ls.len() - 1]);
        if starts_with(t, done_prefix()) {
            lemma_starts_with_push(t, done_mark(), ' ');
        }
        if starts_with(t, done_prefix_upper()) {
            lemma_starts_with_push(t, done_mark_upper(), ' ');
        }
        if starts_with(t, open_prefix()) {
            lemma_starts_with_push(t, open_mark(), ' ');
            if starts_with(t, done_mark()) {
                lemma_starts_with_index(t, open_prefix(), 3);
                lemma_starts_with_index(t, done_mark(), 3);
            }
            if starts_with(t, done_mark_upper()) {
                lemma_starts_with_index(t, open_prefix(), 3);
                lemma_starts_with_index(t, done_mark_upper(), 3);
            }
        }
        let r = tasks_of_lines(d);
        match task_of_line(l) {
            Some(td) => {
                let tv = TaskView { line_index: ls.len() - 1, text: td.0, done: td.1 };
                assert(tasks_of_lines(ls) == r.push(tv));
                assert(r.push(tv).drop_last() =~= r);
                assert(counts_done(l) == td.1);
            },
            None => {
                assert(!counts_task(l));
            },
        }
    }
}

/// Line `i` is one of the listed tasks.
pub open spec fn lists_task_at(ts: Seq<TaskView>, i: int) -> bool {
    exists|j: int| 0 <= j < ts.len() && #[trigger] ts[j].line_index == i
}

/// Line `i` is one of the listed content lines.
pub open spec fn lists_content_at(cs: Seq<ContentView>, i: int) -> bool {
    exists|j: int| 0 <= j < cs.len() && #[trigger] cs[j].line_index == i
}

proof fn lemma_task_indices(ls: Seq<Seq<char>>, i: int)
    ensures
        lists_task_at(tasks_of_lines(ls), i) <==> (0 <= i < ls.len() && task_of_line(ls[i]) is Some),
    decreases ls.len(),
{
    if ls.len() > 0 {
        let d = ls.drop_last();
        lemma_task_indices(d, i);
        let r = tasks_of_lines(d);
        let full = tasks_of_lines(ls);
        if 0 <= i < d.len() {
            assert(d[i] == ls[i]);
        }
        match task_of_line(ls.last()) {
            Some(td) => {
                let tv = TaskView { line_index: ls.len() - 1, text: td.0, done: td.1 };
                assert(full == r.push(tv));
                if lists_task_at(full, i) {
                    let j = choose|j: int| 0 <= j < full.len() && #[trigger] full[j].line_index == i;
                    if j < r.len() {
                        assert(full[j] == r[j]);
                        assert(lists_task_at(r, i));
                    }
                }
                if 0 <= i < ls.len() && task_of_line(ls[i]) is Some {
                    if i < d.len() {
                        let j = choose|j: int| 0 <= j < r.len() && #[trigger] r[j].line_index == i;
                        assert(full[j] == r[j]);
                    } else {
                        assert(full[r.len() as int].line_index == i);
                    }
                }
            },
            None => {
                assert(full == r);
            },
        }
    }
}

proof fn lemma_content_indices(ls: Seq<Seq<char>>, b: int, i: int)
    ensures
        lists_content_at(content_of_lines(ls, b), i) <==> (0 <= i < ls.len() && i >= b && trim(
            ls[i],
        ).len() > 0 && !has_task_prefix(trim(ls[i]))),
    decreases ls.len(),
{
    if ls.len() > 0 {
        let d = ls.drop_last();
        lemma_content_indices(d, b, i);
        let r = content_of_lines(d, b);
        let full = content_of_lines(ls, b);
        if 0 <= i < d.len() {
            assert(d[i] == ls[i]);
        }
        let k = ls.len() - 1;
        let t = trim(ls.last());
        if k >= b && t.len() > 0 && !has_task_prefix(t) {
            let cv = ContentView { line_index: k, text: t };
            assert(full == r.push(cv));
            if lists_content_at(full, i) {
                let j = choose|j: int| 0 <= j < full.len() && #[trigger] full[j].line_index == i;
                if j < r.len() {
                    assert(full[j] == r[j]);
                    assert(lists_content_at(r, i));
                }
            }
            if 0 <= i < ls.len() && i >= b && trim(ls[i]).len() > 0 && !has_task_prefix(
                trim(ls[i]),
            ) {
                if i < d.len() {
                    let j = choose|j: int| 0 <= j < r.len() && #[trigger] r[j].line_index == i;
                    assert(full[j] == r[j]);
                } else {
                    assert(full[r.len() as int].line_index == i);
                }
            }
        } else {
            assert(full == r);
        }
    }
}

/// After the front matter, every line that is not blank is listed either as
/// a task or as a content line; no line is listed as both.
pub proof fn lemma_tasks_and_content_partition(c: Seq<char>, i: int)
    ensures
        !(lists_task_at(tasks_of_lines(lines(c)), i) && lists_content_at(
            content_of_lines(lines(c), front_matter_lines(c) as int),
            i,
        )),
        0 <= i < lines(c).len() && i >= front_matter_lines(c) && trim(lines(c)[i]).len() > 0
            ==> lists_task_at(tasks_of_lines(lines(c)), i) || lists_content_at(
            content_of_lines(lines(c), front_matter_lines(c) as int),
            i,
        ),
{
    lemma_task_indices(lines(c), i);
    lemma_content_indices(lines(c), front_matter_lines(c) as int, i);
}

/// `x` is one of the notes.
pub open spec fn is_one_of(notes: Seq<NoteView>, x: NoteView) -> bool {
    exists|j: int| 0 <= j < notes.len() && notes[j] == x
}

/// The recent list holds at most five notes, newest first, each of them one
/// of the notes found.
pub proof fn lemma_recent_notes(notes: Seq<NoteView>, out: Seq<NoteView>)
    requires
        newest_first(notes, out),
    ensures
        out.len() == if notes.len() < recent_limit() {
            notes.len() as int
        } else {
            recent_limit()
        },
        forall|i: int, j: int| 0 <= i < j < out.len() ==> out[i].modified >= out[j].modified,
        forall|i: int| 0 <= i < out.len() ==> is_one_of(notes, #[trigger] out[i]),
{
    let sorted = choose|sorted: Seq<NoteView>|
        #[trigger] crate::order::stable_sorted_desc(notes, modified_keys(notes), sorted) && out
            == sorted.take(
            if notes.len() < recent_limit() {
                notes.len() as int
            } else {
                recent_limit()
            },
        );
    let p = choose|p: Seq<int>| sort_witness(notes, modified_keys(notes), sorted, p);
    assert forall|i: int, j: int| 0 <= i < j < out.len() implies out[i].modified
        >= out[j].modified by {
        assert(modified_keys(notes)[p[i]] >= modified_keys(notes)[p[j]]);
        assert(sorted[i] == notes[p[i]]);
        assert(sorted[j] == notes[p[j]]);
    }
    assert forall|i: int| 0 <= i < out.len() implies is_one_of(notes, #[trigger] out[i]) by {
        assert(out[i] == sorted[i]);
        assert(sorted[i] == notes[p[i]]);
        let j = p[i];
        assert(0 <= j < notes.len() && notes[j] == out[i]);
    }
}

proof fn lemma_visible_not_hidden(notes: Seq<NoteView>, hidden: Seq<Seq<char>>, k: int)
    requires
        0 <= k < visible_notes(notes, hidden).len(),
    ensures
        !names_contain(hidden, visible_notes(notes, hidden)[k].name),
        is_one_of(notes, visible_notes(notes, hidden)[k]),
    decreases notes.len(),
{
    if notes.len() > 0 {
        let r = visible_notes(notes.drop_last(), hidden);
        if k < r.len() {
            lemma_visible_not_hidden(notes.drop_last(), hidden, k);
            if names_contain(hidden, notes.last().name) {
            } else {
                assert(visible_notes(notes, hidden)[k] == r[k]);
            }
            let j = choose|j: int| 0 <= j < notes.drop_last().len() && notes.drop_last()[j] == r[k];
            assert(notes[j] == r[k]);
        } else {
            assert(visible_notes(notes, hidden)[k] == notes.last());
            assert(notes[notes.len() - 1] == notes.last());
        }
    }
}

/// The note list never shows a hidden note; pinned notes come first, then
/// the session note, then the others; within each group newer notes come
/// first.
pub proof fn lemma_shown_order(v: OverlayView, s: Seq<NoteView>)
    requires
        v.shown_order(s),
    ensures
        forall|i: int| 0 <= i < s.len() ==> !names_contain(v.hidden, #[trigger] s[i].name),
        forall|i: int| 0 <= i < s.len() ==> is_one_of(v.notes, #[trigger] s[i]),
        forall|i: int, j: int|
            0 <= i < j < s.len() && names_contain(v.pinned, #[trigger] s[j].name) ==> names_contain(
                v.pinned,
                #[trigger] s[i].name,
            ),
        forall|i: int, j: int|
            0 <= i < j < s.len() && names_contain(v.pinned, #[trigger] s[i].name) == names_contain(
                v.pinned,
                #[trigger] s[j].name,
            ) && md_file(s[j].name) == v.session_file ==> md_file(s[i].name) == v.session_file,
        forall|i: int, j: int|
            0 <= i < j < s.len() && names_contain(v.pinned, #[trigger] s[i].name) == names_contain(
                v.pinned,
                #[trigger] s[j].name,
            ) && (md_file(s[i].name) == v.session_file) == (md_file(s[j].name) == v.session_file)
                ==> s[i].modified >= s[j].modified,
{
    let vis = v.visible();
    let keys = rank_keys(vis, v.pinned, v.session_file);
    let p = choose|p: Seq<int>| sort_witness(vis, keys, s, p);
    assert forall|i: int| 0 <= i < s.len() implies is_one_of(v.notes, #[trigger] s[i])
        && !names_contain(v.hidden, s[i].name) by {
        assert(s[i] == vis[p[i]]);
        lemma_visible_not_hidden(v.notes, v.hidden, p[i]);
    }
    assert forall|i: int, j: int| #![trigger s[i], s[j]] 0 <= i < j < s.len() implies note_rank(
        s[i],
        v.pinned,
        v.session_file,
    ) >= note_rank(s[j], v.pinned, v.session_file) by {
        assert(keys[p[i]] >= keys[p[j]]);
        assert(s[i] == vis[p[i]]);
        assert(s[j] == vis[p[j]]);
    }
}

/// Line `i` of `c` can be replaced by `new` so that it reads back as `new`:
/// `new` holds no `'\n'`; it does not end with a `'\r'` that would turn a
/// plain `\n` ending into `\r\n`; and it is not empty where line `i` is the
/// last one and has no ending (it would no longer be a line).
pub open spec fn replaceable_by(c: Seq<char>, i: int, new: Seq<char>) -> bool {
    let p = split_lf(c);
    &&& no_lf(new)
    &&& (i < p.len() - 1 && ends_with_char(new, '\r') ==> ends_with_char(p[i], '\r'))
    &&& (i == p.len() - 1 ==> new.len() > 0)
}

/// How the lines of a text stand to its pieces between `'\n'` characters.
proof fn lemma_line_of_piece(c: Seq<char>, k: int)
    requires
        0 <= k < lines(c).len(),
    ensures
        k < split_lf(c).len(),
        k < split_lf(c).len() - 1 ==> lines(c)[k] == strip_cr(split_lf(c)[k]),
        k == split_lf(c).len() - 1 ==> lines(c)[k] == split_lf(c)[k] && split_lf(c)[k].len()
            > 0,
{
    lemma_split_lf_len(c);
    lemma_lines_le_pieces(c);
}

/// The pieces of a text after one of its lines is replaced.
proof fn lemma_pieces_of_replaced(c: Seq<char>, i: int, new: Seq<char>)
    requires
        0 <= i < lines(c).len(),
        no_lf(new),
    ensures
        split_lf(replaced_line_text(c, i, new)) == split_lf(c).update(
            i,
            line_piece(split_lf(c), i, new),
        ),
{
    let p = split_lf(c);
    lemma_split_lf_len(c);
    lemma_lines_le_pieces(c);
    lemma_split_lf_no_lf(c);
    let nc = line_piece(p, i, new);
    assert(no_lf(nc)) by {
        assert forall|k: int| 0 <= k < nc.len() implies nc[k] != '\n' by {
            if k < new.len() {
                assert(nc[k] == new[k]);
            }
        }
    }
    let q = p.update(i, nc);
    assert forall|k: int| 0 <= k < q.len() implies no_lf(#[trigger] q[k]) by {
        if k != i {
            assert(q[k] == p[k]);
        }
    }
    lemma_split_lf_join(q);
}

/// Replacing line `i` of a note by `new` (see `replaceable_by`) and reading
/// the lines back gives the old lines with line `i` replaced by `new`.
pub proof fn lemma_replace_line_reads_back(c: Seq<char>, i: int, new: Seq<char>)
    requires
        0 <= i < lines(c).len(),
        replaceable_by(c, i, new),
    ensures
        lines(replaced_line_text(c, i, new)) == lines(c).update(i, new),
{
    let p = split_lf(c);
    lemma_split_lf_len(c);
    lemma_lines_le_pieces(c);
    lemma_pieces_of_replaced(c, i, new);
    let nc = line_piece(p, i, new);
    let q = p.update(i, nc);
    let r = replaced_line_text(c, i, new);
    assert(split_lf(r) == q);
    lemma_line_of_piece(c, i);
    if i < p.len() - 1 {
        assert(strip_cr(nc) =~= new);
        assert(q.last() == p.last());
    } else {
        assert(nc == new);
    }
    assert forall|k: int| 0 <= k < lines(c).len() && k != i implies #[trigger] lines(r)[k]
        == lines(c)[k] by {
        lemma_line_of_piece(c, k);
        assert(q[k] == p[k]);
    }
    assert(lines(r) =~= lines(c).update(i, new));
}

/// Replacing a line by the text it already has leaves the note as it was.
pub proof fn lemma_replace_same_line(c: Seq<char>, i: int)
    requires
        0 <= i < lines(c).len(),
    ensures
        replaced_line_text(c, i, lines(c)[i]) == c,
{
    let p = split_lf(c);
    lemma_line_of_piece(c, i);
    if i < p.len() - 1 && p[i].len() > 0 && p[i].last() == '\r' {
        assert(p[i].drop_last().push('\r') =~= p[i]);
    }
    assert(line_piece(p, i, lines(c)[i]) == p[i]);
    assert(p.update(i, p[i]) =~= p);
    lemma_join_split_lf(c);
}

/// Replacing a line twice is replacing it once, by the second text.
pub proof fn lemma_replace_twice(c: Seq<char>, i: int, x: Seq<char>, y: Seq<char>)
    requires
        0 <= i < lines(c).len(),
        replaceable_by(c, i, x),
    ensures
        replaced_line_text(replaced_line_text(c, i, x), i, y) == replaced_line_text(c, i, y),
{
    let p = split_lf(c);
    lemma_split_lf_len(c);
    lemma_pieces_of_replaced(c, i, x);
    lemma_replace_line_reads_back(c, i, x);
    let c1 = replaced_line_text(c, i, x);
    let q = split_lf(c1);
    assert(lines(c1).len() == lines(c).len());
    assert(line_piece(q, i, y) == line_piece(p, i, y));
    assert(q.update(i, line_piece(q, i, y)) =~= p.update(i, line_piece(p, i, y)));
}

proof fn lemma_trim_ends(s: Seq<char>)
    requires
        trim(s).len() > 0,
    ensures
        !is_ws(trim(s)[0]),
        !is_ws(trim(s).last()),
        no_lf(s) ==> no_lf(trim(s)),
{
    lemma_ws_run_bounds(s, 0);
    let a = ws_run(s, 0);
    lemma_ws_back_bounds(s, a, s.len() as int);
    let e = ws_back(s, a, s.len() as int);
    assert(trim(s) == s.subrange(a, e));
    assert(trim(s)[0] == s[a]);
    assert(trim(s).last() == s[e - 1]);
    if no_lf(s) {
        assert forall|k: int| 0 <= k < trim(s).len() implies trim(s)[k] != '\n' by {
            assert(trim(s)[k] == s[a + k]);
        }
    }
}

/// A prefix that starts with `-` followed by a trimmed, non-empty text is
/// already trimmed.
proof fn lemma_trim_of_marked(p: Seq<char>, t: Seq<char>)
    requires
        p.len() > 0,
        p[0] == '-',
        t.len() > 0,
        !is_ws(t.last()),
    ensures
        trim(p + t) == p + t,
{
    let s = p + t;
    assert(!is_ws(s[0]));
    assert(ws_run(s, 0) == 0);
    assert(s[s.len() - 1] == t.last());
    assert(ws_back(s, 0, s.len() as int) == s.len());
    assert(s.subrange(0, s.len() as int) =~= s);
}

/// A task line saved from an edit (with text that is not blank) is read as a
/// task again, with the trimmed text and the state it had.
pub proof fn lemma_edited_task_parses(el: EditingView)
    requires
        el.is_task,
        trim(el.value).len() > 0,
    ensures
        task_of_line(edited_text(el)) == Some((trim(el.value), el.was_done)),
{
    reveal_strlit("- [x] ");
    reveal_strlit("- [ ] ");
    let t = trim(el.value);
    lemma_trim_ends(el.value);
    let p = if el.was_done {
        "- [x] "@
    } else {
        "- [ ] "@
    };
    assert(edited_text(el) == p + t);
    lemma_trim_of_marked(p, t);
    let s = p + t;
    assert(s.take(6) =~= p);
    assert(s.skip(6) =~= t);
    if el.was_done {
        assert(p =~= done_prefix());
    } else {
        assert(p =~= open_prefix());
        assert(s.take(6)[3] != done_prefix()[3]);
        assert(s.take(6)[3] != done_prefix_upper()[3]);
    }
}

/// Saving an edited task line into a note changes that line only, and
/// reading it back gives the task with the trimmed text and the state it had.
pub proof fn lemma_saved_task_reads_back(c: Seq<char>, i: int, el: EditingView)
    requires
        0 <= i < lines(c).len(),
        el.is_task,
        trim(el.value).len() > 0,
        no_lf(el.value),
    ensures
        lines(replaced_line_text(c, i, edited_text(el))) == lines(c).update(i, edited_text(el)),
        task_of_line(nth_line(replaced_line_text(c, i, edited_text(el)), i)) == Some(
            (trim(el.value), el.was_done),
        ),
{
    reveal_strlit("- [x] ");
    reveal_strlit("- [ ] ");
    lemma_trim_ends(el.value);
    let t = trim(el.value);
    let p = if el.was_done {
        "- [x] "@
    } else {
        "- [ ] "@
    };
    let new = edited_text(el);
    assert(new == p + t);
    assert forall|k: int| 0 <= k < new.len() implies new[k] != '\n' by {
        if k >= p.len() {
            assert(new[k] == t[k - p.len()]);
        }
    }
    assert(new.last() == t.last());
    assert(is_ws('\r'));
    lemma_replace_line_reads_back(c, i, new);
    lemma_edited_task_parses(el);
}

/// An inline edit submitted unchanged leaves the note as it was: a plain
/// line, or a task line written `- [ ] text` or `- [x] text` (no indentation,
/// one space after the checkbox) that was marked done exactly when it is.
pub proof fn lemma_unchanged_edit_keeps_note(c: Seq<char>, i: int, is_task: bool, was_done: bool)
    requires
        0 <= i < lines(c).len(),
        is_task ==> ({
            let l = lines(c)[i];
            &&& l == trim(l)
            &&& trim(l.skip(6)) == l.skip(6)
            &&& if was_done {
                starts_with(l, done_prefix())
            } else {
                starts_with(l, open_prefix())
            }
        }),
    ensures
        replaced_line_text(
            c,
            i,
            edited_text(
                EditingView {
                    line_index: i as usize,
                    value: edit_value(lines(c)[i], is_task),
                    is_task,
                    was_done,
                },
            ),
        ) == c,
{
    reveal_strlit("- [x] ");
    reveal_strlit("- [ ] ");
    let l = lines(c)[i];
    if is_task {
        let pre = if was_done {
            done_prefix()
        } else {
            open_prefix()
        };
        assert(pre =~= (if was_done {
            "- [x] "@
        } else {
            "- [ ] "@
        }));
        if !was_done {
            assert(l.take(6)[3] != done_prefix()[3]);
            assert(l.take(6)[3] != done_prefix_upper()[3]);
        }
        assert(edit_value(l, is_task) == l.skip(6));
        assert(pre + l.skip(6) =~= l);
    }
    lemma_replace_same_line(c, i);
}

// ---------------------------------------------------------------- toggling

proof fn lemma_ws_run_agree(s: Seq<char>, s2: Seq<char>, a: int, i: int)
    requires
        0 <= i <= a < s.len(),
        a < s2.len(),
        ws_run(s, 0) == a,
        forall|j: int| 0 <= j <= a ==> s2[j] == s[j],
    ensures
        ws_run(s2, i) == ws_run(s, i),
    decreases a - i,
{
    lemma_ws_run_bounds(s, 0);
    if i < a {
        assert(is_ws(s[i]));
        lemma_ws_run_agree(s, s2, a, i + 1);
        assert(ws_run(s, i) == ws_run(s, i + 1));
    } else {
        assert(!is_ws(s[a]));
    }
}

proof fn lemma_ws_back_agree(s2: Seq<char>, lo: int, e: int, j: int)
    requires
        lo < e <= j <= s2.len(),
        !is_ws(s2[e - 1]),
        forall|k: int| e <= k < j ==> is_ws(#[trigger] s2[k]),
    ensures
        ws_back(s2, lo, j) == e,
    decreases j - e,
{
    if j > e {
        lemma_ws_back_agree(s2, lo, e, j - 1);
    }
}

/// Where a line's trimmed text starts with the five characters `m_old`,
/// putting `m_new` (which starts with `-`) in their place gives a line whose
/// trimmed text starts with `m_new` and goes on as before.
proof fn lemma_mark_swap(l: Seq<char>, m_old: Seq<char>, m_new: Seq<char>)
    requires
        m_old.len() == 5,
        m_new.len() == 5,
        m_old[0] == '-',
        m_new[0] == '-',
        trim(l).len() > 5,
        starts_with(trim(l), m_old),
    ensures
        ws_run(l, 0) + 5 < l.len(),
        l.subrange(ws_run(l, 0), ws_run(l, 0) + 5) == m_old,
        ws_run(l.take(ws_run(l, 0)) + m_new + l.skip(ws_run(l, 0) + 5), 0) == ws_run(l, 0),
        trim(l.take(ws_run(l, 0)) + m_new + l.skip(ws_run(l, 0) + 5)) == m_new + trim(l).skip(5),
{
    lemma_ws_run_bounds(l, 0);
    let a = ws_run(l, 0);
    let n = l.len() as int;
    lemma_ws_back_bounds(l, a, n);
    let e = ws_back(l, a, n);
    assert(trim(l) == l.subrange(a, e));
    assert(l.subrange(a, a + 5) =~= m_old) by {
        assert(trim(l).take(5) =~= l.subrange(a, a + 5));
    }
    let res = l.take(a) + m_new + l.skip(a + 5);
    assert(res.len() == n);
    assert forall|j: int| 0 <= j <= a implies res[j] == l[j] by {
        if j == a {
            assert(res[a] == m_new[0]);
            assert(l[a] == trim(l)[0]);
            assert(trim(l)[0] == m_old[0]);
        }
    }
    lemma_ws_run_agree(l, res, a, 0);
    assert forall|j: int| a + 5 <= j < n implies res[j] == l[j] by {}
    assert(!is_ws(l[e - 1]));
    assert(res[e - 1] == l[e - 1]);
    assert forall|k: int| e <= k < n implies is_ws(#[trigger] res[k]) by {
        assert(res[k] == l[k]);
    }
    lemma_ws_back_agree(res, a, e, n);
    assert(trim(res) == res.subrange(a, e));
    assert(res.subrange(a, e) =~= m_new + trim(l).skip(5));
}

proof fn lemma_trim_len_after_prefix(l: Seq<char>)
    requires
        task_of_line(l) is Some,
    ensures
        trim(l).len() > 6,
{
    let t = trim(l);
    lemma_task_space(l);
    assert(is_ws(t[5]));
    if t.len() == 6 {
        lemma_ws_run_bounds(l, 0);
        let a = ws_run(l, 0);
        lemma_ws_back_bounds(l, a, l.len() as int);
        let e = ws_back(l, a, l.len() as int);
        assert(t == l.subrange(a, e));
        assert(!is_ws(l[e - 1]));
        assert(t[5] == l[e - 1]);
    }
}

/// The checkbox that starts a task line's trimmed text.
proof fn lemma_task_mark(l: Seq<char>)
    requires
        task_of_line(l) is Some,
    ensures
        trim(l).len() > 6,
        task_of_line(l) matches Some(td) && td.1 ==> starts_with(trim(l), done_mark())
            || starts_with(trim(l), done_mark_upper()),
        task_of_line(l) matches Some(td) && !td.1 ==> starts_with(trim(l), open_mark()),
        task_of_line(l) matches Some(td) && td.0 == trim(l).skip(6),
{
    let t = trim(l);
    lemma_trim_len_after_prefix(l);
    if starts_with(t, done_prefix()) {
        lemma_starts_with_push(t, done_mark(), ' ');
    } else if starts_with(t, done_prefix_upper()) {
        lemma_starts_with_push(t, done_mark_upper(), ' ');
    } else {
        lemma_starts_with_push(t, open_mark(), ' ');
    }
}

/// Toggling a task line flips its state and keeps its text.
pub proof fn lemma_toggle_flips_task(l: Seq<char>)
    requires
        task_of_line(l) is Some,
    ensures
        task_of_line(l) matches Some(td) && task_of_line(toggled_line(l)) == Some((td.0, !td.1)),
{
    let t = trim(l);
    lemma_task_mark(l);
    lemma_task_space(l);
    let done = starts_with(t, done_prefix()) || starts_with(t, done_prefix_upper());
    let m_old = if starts_with(t, done_mark()) {
        done_mark()
    } else if starts_with(t, done_mark_upper()) {
        done_mark_upper()
    } else {
        open_mark()
    };
    let m_new = if done {
        open_mark()
    } else {
        done_mark()
    };
    if done {
        assert(starts_with(t, done_prefix()) || starts_with(t, done_prefix_upper()));
    } else {
        assert(!starts_with(t, done_prefix()) && !starts_with(t, done_prefix_upper()));
        assert(t.take(5)[3] == ' ');
        assert(m_old == open_mark());
    }
    lemma_mark_swap(l, m_old, m_new);
    let t2 = trim(toggled_line(l));
    assert(t2 == m_new + t.skip(5));
    assert(t2.skip(6) =~= t.skip(6));
    if done {
        assert(t2.take(6) =~= open_prefix());
        assert(t2.take(6)[3] != done_prefix()[3]);
        assert(t2.take(6)[3] != done_prefix_upper()[3]);
    } else {
        assert(t2.take(6) =~= done_prefix());
    }
}

/// Toggling a task line written with `- [ ]` or `- [x]` twice gives the line
/// back (one written with `- [X]` comes back with `- [x]`).
pub proof fn lemma_toggle_line_twice(l: Seq<char>)
    requires
        starts_with(trim(l), open_prefix()) || starts_with(trim(l), done_prefix()),
    ensures
        toggled_line(toggled_line(l)) == l,
{
    let t = trim(l);
    assert(task_of_line(l) is Some);
    lemma_task_mark(l);
    lemma_task_space(l);
    let done = starts_with(t, done_prefix());
    let m_old = if done {
        done_mark()
    } else {
        open_mark()
    };
    let m_new = if done {
        open_mark()
    } else {
        done_mark()
    };
    if !done {
        assert(t.take(6)[3] != done_prefix()[3]);
        assert(t.take(6)[3] != done_prefix_upper()[3]);
    }
    lemma_mark_swap(l, m_old, m_new);
    lemma_ws_run_bounds(l, 0);
    let a = ws_run(l, 0);
    let r = toggled_line(l);
    assert(r == l.take(a) + m_new + l.skip(a + 5));
    let t2 = trim(r);
    assert(t2 == m_new + t.skip(5));
    assert(t2.len() > 5);
    if done {
        assert(t2.take(6) =~= open_prefix());
        assert(t2.take(6)[3] != done_prefix()[3]);
        assert(t2.take(6)[3] != done_prefix_upper()[3]);
    } else {
        assert(t2.take(6) =~= done_prefix());
    }
    assert(ws_run(r, 0) == a);
    assert(r.take(a) =~= l.take(a));
    assert(r.skip(a + 5) =~= l.skip(a + 5));
    assert(l.take(a) + l.subrange(a, a + 5) + l.skip(a + 5) =~= l);
    assert(toggled_line(r) == r.take(a) + m_old + r.skip(a + 5));
    assert(r.take(a) + m_old + r.skip(a + 5) =~= l);
}

/// The shape of a toggled task line: as long as the line, and equal to it
/// outside the five characters of the checkbox, which hold no `'\n'`.
proof fn lemma_toggled_shape(l: Seq<char>)
    requires
        task_of_line(l) is Some,
    ensures
        toggled_line(l).len() == l.len(),
        l.len() > 0,
        toggled_line(l).last() == l.last(),
        no_lf(l) ==> no_lf(toggled_line(l)),
{
    lemma_task_mark(l);
    lemma_ws_run_bounds(l, 0);
    let a = ws_run(l, 0);
    lemma_ws_back_bounds(l, a, l.len() as int);
    assert(trim(l) == l.subrange(a, ws_back(l, a, l.len() as int)));
    let r = toggled_line(l);
    let m = if starts_with(trim(l), done_prefix()) || starts_with(trim(l), done_prefix_upper()) {
        open_mark()
    } else {
        done_mark()
    };
    assert(r == l.take(a) + m + l.skip(a + 5));
    assert(r.last() == l.last());
    if no_lf(l) {
        assert forall|k: int| 0 <= k < r.len() implies r[k] != '\n' by {
            if k < a || k >= a + 5 {
                assert(r[k] == l[k]);
            } else {
                assert(r[k] == m[k - a]);
            }
        }
    }
}

/// Toggling the task on line `i` of a note changes that line only, and
/// flips the task's state while keeping its text.
pub proof fn lemma_toggle_task_in_text(c: Seq<char>, i: int)
    requires
        0 <= i < lines(c).len(),
        task_of_line(lines(c)[i]) is Some,
    ensures
        lines(toggled_text(c, i)) == lines(c).update(i, toggled_line(lines(c)[i])),
        task_of_line(lines(c)[i]) matches Some(td) && task_of_line(lines(toggled_text(c, i))[i])
            == Some((td.0, !td.1)),
{
    lemma_toggled_replaceable(c, i);
    lemma_replace_line_reads_back(c, i, toggled_line(lines(c)[i]));
    lemma_toggle_flips_task(lines(c)[i]);
}

/// A toggled task line can replace the line it came from.
proof fn lemma_toggled_replaceable(c: Seq<char>, i: int)
    requires
        0 <= i < lines(c).len(),
        task_of_line(lines(c)[i]) is Some,
    ensures
        replaceable_by(c, i, toggled_line(lines(c)[i])),
{
    let l = lines(c)[i];
    let p = split_lf(c);
    lemma_lines_no_lf(c);
    lemma_toggled_shape(l);
    lemma_line_of_piece(c, i);
}

/// Toggling the task on a line written with `- [ ]` or `- [x]` twice gives
/// the note back as it was.
pub proof fn lemma_toggle_twice(c: Seq<char>, i: int)
    requires
        0 <= i < lines(c).len(),
        starts_with(trim(lines(c)[i]), open_prefix()) || starts_with(
            trim(lines(c)[i]),
            done_prefix(),
        ),
    ensures
        toggled_text(toggled_text(c, i), i) == c,
{
    let l = lines(c)[i];
    assert(task_of_line(l) is Some);
    lemma_toggled_replaceable(c, i);
    lemma_replace_line_reads_back(c, i, toggled_line(l));
    let c1 = toggled_text(c, i);
    assert(lines(c1)[i] == toggled_line(l));
    lemma_toggle_line_twice(l);
    lemma_replace_twice(c, i, toggled_line(l), l);
    lemma_replace_same_line(c, i);
}

// ---------------------------------------------------------------- appending

proof fn lemma_find_extend(s: Seq<char>, x: Seq<char>, p: Seq<char>, i: int)
    requires
        0 <= i,
        find_from(s, p, i) is Some,
    ensures
        find_from(s + x, p, i) == find_from(s, p, i),
    decreases s.len() + 1 - i,
{
    lemma_find_from(s, p, i);
    let k = find_from(s, p, i)->0;
    if i < k {
        assert(!match_at(s, p, i));
        assert((s + x).subrange(i, i + p.len()) =~= s.subrange(i, i + p.len()));
        lemma_find_extend(s, x, p, i + 1);
    } else {
        assert((s + x).subrange(i, i + p.len()) =~= s.subrange(i, i + p.len()));
    }
}

/// Appending a line to a note keeps its front matter where it ends.
pub proof fn lemma_append_keeps_front_matter(raw: Seq<char>, content: Seq<char>)
    requires
        front_matter_split(raw) is Some,
    ensures
        front_matter_split(appended_text(raw, content)) == front_matter_split(raw),
{
    let out = appended_text(raw, content);
    let x = out.skip(raw.len() as int);
    assert(out =~= raw + x);
    lemma_ws_run_bounds(raw, 0);
    let a = ws_run(raw, 0);
    let t = raw.skip(a);
    assert(starts_with(t, dashes()));
    assert(a < raw.len());
    assert forall|j: int| 0 <= j <= a implies out[j] == raw[j] by {}
    lemma_ws_run_agree(raw, out, a, 0);
    let t2 = out.skip(a);
    assert(t2 =~= t + x);
    assert(t2.take(3) =~= t.take(3));
    assert(t2.skip(3) =~= t.skip(3) + x);
    lemma_find_extend(t.skip(3), x, closing_delim(), 0);
}


// ---------------------------------------------------------------- overlay actions

/// Enter in the input, outside note creation, appends the trimmed input to
/// the destination note (`selected_file`, whatever the session note is) and
/// does nothing else; a blank input appends nothing.
pub proof fn lemma_enter_appends_to_destination(v: OverlayView)
    requires
        v.mode == OverlayMode::Normal,
    ensures
        trim(v.input_value).len() > 0 ==> v.submitted().plan == seq![
            StepView::Append { filename: v.selected_file, text: trim(v.input_value) },
        ],
        trim(v.input_value).len() > 0 ==> advance(v.submitted()).1 == (CommandView::AppendToNote {
            filename: v.selected_file,
            text: trim(v.input_value),
        }),
        trim(v.input_value).len() == 0 ==> v.submitted().plan.len() == 0,
        v.submitted().selected_file == v.selected_file,
        v.submitted().input_value == v.input_value,
{
}

/// The answer to a reread of the expanded note shows that text's tasks and
/// content lines, exactly as the answer to the first read of the note does.
pub proof fn lemma_reread_shows_new_text(v: OverlayView, c: Seq<char>)
    requires
        v.awaiting == Awaiting::Reload,
    ensures
        apply_response(v, ResponseView::Read(Ok(c))).expanded_tasks == tasks_of_lines(lines(c)),
        apply_response(v, ResponseView::Read(Ok(c))).expanded_content_lines == content_of_lines(
            lines(c),
            front_matter_lines(c) as int,
        ),
        apply_response(v, ResponseView::Read(Ok(c))).expanded_tasks == apply_response(
            (OverlayView { awaiting: Awaiting::Expand, ..v }),
            ResponseView::Read(Ok(c)),
        ).expanded_tasks,
        apply_response(v, ResponseView::Read(Ok(c))).expanded_content_lines == apply_response(
            (OverlayView { awaiting: Awaiting::Expand, ..v }),
            ResponseView::Read(Ok(c)),
        ).expanded_content_lines,
{
}

/// A click on a shown note other than the expanded one expands it, makes it
/// the destination (`name.md`) and reads it; a click on the expanded note
/// collapses it and leaves the destination as it was.
pub proof fn lemma_click_expands_or_collapses(v: OverlayView, shown: Seq<NoteView>, idx: int)
    requires
        0 <= idx < shown.len(),
    ensures
        v.expanded_note != Some(shown[idx].name) ==> ({
            let r = v.clicked(shown, idx);
            &&& r.expanded_note == Some(shown[idx].name)
            &&& r.selected_file == shown[idx].name + seq!['.', 'm', 'd']
            &&& r.plan.len() > 0 && r.plan[0] == StepView::Expand
            &&& advance(r).1 == (CommandView::ReadNote {
                filename: shown[idx].name + seq!['.', 'm', 'd'],
            })
            &&& advance(r).0.awaiting == Awaiting::Expand
        }),
        v.expanded_note == Some(shown[idx].name) ==> ({
            let r = v.clicked(shown, idx);
            &&& r.expanded_note is None
            &&& r.selected_file == v.selected_file
            &&& r.expanded_content_lines.len() == 0
        }),
{
    reveal_strlit(".md");
    assert(".md"@ =~= seq!['.', 'm', 'd']);
}

/// Turning a title's spaces and slashes into dashes keeps its length, leaves
/// every other character where it was, turns each space and each slash into
/// `-` whatever surrounds it, and leaves no space or slash.
pub proof fn lemma_dashed_title(s: Seq<char>)
    ensures
        dashed(s).len() == s.len(),
        forall|i: int|
            0 <= i < s.len() ==> #[trigger] dashed(s)[i] == (if s[i] == ' ' || s[i] == '/' {
                '-'
            } else {
                s[i]
            }),
        forall|i: int| 0 <= i < s.len() ==> #[trigger] dashed(s)[i] != ' ' && dashed(s)[i] != '/',
{
}

/// Cutting a title anywhere and dashing the two parts is dashing the whole
/// title: each character is turned on its own.
pub proof fn lemma_dashed_concat(a: Seq<char>, b: Seq<char>)
    ensures
        dashed(a + b) == dashed(a) + dashed(b),
{
    assert(dashed(a + b) =~= dashed(a) + dashed(b));
}

/// `x` held to `[lo, hi]`.
pub open spec fn held(x: int, lo: int, hi: int) -> int {
    if x < lo {
        lo
    } else if x > hi {
        hi
    } else {
        x
    }
}

/// The window width that a resize from edge `e` gives after the pointer
/// moved `dx` from where it began, from the width `sw` it had then: the east
/// side (E, NE, SE) follows the pointer, the west side (W, NW, SW) goes the
/// other way, the top and bottom edges keep the width; always within 300..800.
pub open spec fn expected_width(e: ResizeEdge, dx: int, sw: int) -> int {
    match e {
        ResizeEdge::E | ResizeEdge::NE | ResizeEdge::SE => held(sw + dx, 300, 800),
        ResizeEdge::W | ResizeEdge::NW | ResizeEdge::SW => held(sw - dx, 300, 800),
        _ => sw,
    }
}

/// The window height a resize gives: the north side (N, NE, NW) grows as the
/// pointer goes up, the south side (S, SE, SW) as it goes down, the side
/// edges keep the height; always within 200..600.
pub open spec fn expected_height(e: ResizeEdge, dy: int, sh: int) -> int {
    match e {
        ResizeEdge::N | ResizeEdge::NE | ResizeEdge::NW => held(sh - dy, 200, 600),
        ResizeEdge::S | ResizeEdge::SE | ResizeEdge::SW => held(sh + dy, 200, 600),
        _ => sh,
    }
}

/// A pointer move while resizing sets the window to the size that the edge
/// asks for (a corner moves both of its sides); growing at the top moves the
/// top margin up by as much, and a change of width moves the right margin by
/// as much (neither margin goes below 0).
pub proof fn lemma_resize_follows_edge(v: OverlayView, from_origin: (i32, i32), from_last: (i32, i32))
    requires
        v.resizing is Some,
        300 <= v.resize_size_start.0 <= 800,
        200 <= v.resize_size_start.1 <= 600,
        v.drag_fits(from_origin, from_last),
    ensures
        ({
            let e = v.resizing->0;
            let r = v.dragged(from_origin, from_last);
            let (sw, sh) = (v.resize_size_start.0 as int, v.resize_size_start.1 as int);
            let w = expected_width(e, from_origin.0 as int, sw);
            let h = expected_height(e, from_origin.1 as int, sh);
            let top = match e {
                ResizeEdge::N | ResizeEdge::NE | ResizeEdge::NW => v.resize_margin_start.0 + (sh
                    - h),
                _ => v.resize_margin_start.0 as int,
            };
            let right = v.resize_margin_start.1 + (w - sw);
            &&& r.window_size.0 == w
            &&& r.window_size.1 == h
            &&& r.margin.0 == (if top < 0 {
                0
            } else {
                top
            })
            &&& r.margin.1 == (if right < 0 {
                0
            } else {
                right
            })
        }),
{
    let e = v.resizing->0;
    let (sw, sh) = (v.resize_size_start.0 as int, v.resize_size_start.1 as int);
    let (dx, dy) = (from_origin.0 as int, from_origin.1 as int);
    assert(resized_w(e, dx, sw) == expected_width(e, dx, sw));
    assert(resized_h(e, dy, sh) == expected_height(e, dy, sh));
}

/// Dragging the bar (no resize going on) moves the window with the pointer:
/// right by `dx` takes `dx` off the right margin, down by `dy` adds `dy` to
/// the top margin (neither below 0); the size stays.
pub proof fn lemma_drag_moves_window(v: OverlayView, from_origin: (i32, i32), from_last: (i32, i32))
    requires
        v.resizing is None,
        v.dragging,
        v.drag_fits(from_origin, from_last),
    ensures
        ({
            let r = v.dragged(from_origin, from_last);
            let top = v.margin.0 + from_last.1;
            let right = v.margin.1 - from_last.0;
            &&& r.margin.0 == (if top < 0 {
                0
            } else {
                top
            })
            &&& r.margin.1 == (if right < 0 {
                0
            } else {
                right
            })
            &&& r.window_size == v.window_size
        }),
{
}

/// The window size after a pointer move while resizing from edge `e`.
pub open spec fn size_after_resize(
    v: OverlayView,
    e: ResizeEdge,
    from_origin: (i32, i32),
    from_last: (i32, i32),
) -> (u32, u32) {
    (OverlayView { resizing: Some(e), ..v }).dragged(from_origin, from_last).window_size
}

/// A corner resizes exactly as its two sides do: the width as its east or
/// west edge, the height as its north or south edge.
pub proof fn lemma_corner_is_both_sides(v: OverlayView, o: (i32, i32), l: (i32, i32))
    ensures
        size_after_resize(v, ResizeEdge::NE, o, l) == (
            size_after_resize(v, ResizeEdge::E, o, l).0,
            size_after_resize(v, ResizeEdge::N, o, l).1,
        ),
        size_after_resize(v, ResizeEdge::SE, o, l) == (
            size_after_resize(v, ResizeEdge::E, o, l).0,
            size_after_resize(v, ResizeEdge::S, o, l).1,
        ),
        size_after_resize(v, ResizeEdge::NW, o, l) == (
            size_after_resize(v, ResizeEdge::W, o, l).0,
            size_after_resize(v, ResizeEdge::N, o, l).1,
        ),
        size_after_resize(v, ResizeEdge::SW, o, l) == (
            size_after_resize(v, ResizeEdge::W, o, l).0,
            size_after_resize(v, ResizeEdge::S, o, l).1,
        ),
{
}

} // verus!
