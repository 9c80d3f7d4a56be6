//! The task panel's view of a note: its tasks, its other lines, and toggling
//! a task in the note's text.
use vstd::prelude::*;
use crate::notes::{
    done_mark, done_mark_exec, done_mark_upper, done_mark_upper_exec, front_matter_split,
    front_matter_split_exec, open_mark, open_mark_exec, replace_line_text, replaced_line_text,
};
use crate::text::{
    chars_of, has_prefix, line_spans, lines, split_lf, ws_run,
    span, spans_ok, starts_with, string_of, sub_vec, trim,
};

verus! {

/// A task line of a note.
#[derive(Clone, Debug)]
pub struct TaskItem {
    pub line_index: usize,
    pub text: String,
    pub done: bool,
}

/// A line of a note that is neither empty nor a task.
#[derive(Clone, Debug)]
pub struct ContentLine {
    pub line_index: usize,
    pub text: String,
}

/// A `TaskItem` as plain values.
pub struct TaskView {
    pub line_index: int,
    pub text: Seq<char>,
    pub done: bool,
}

/// A `ContentLine` as plain values.
pub struct ContentView {
    pub line_index: int,
    pub text: Seq<char>,
}

impl View for TaskItem {
    type V = TaskView;

    open spec fn view(&self) -> TaskView {
        TaskView { line_index: self.line_index as int, text: self.text@, done: self.done }
    }
}

impl View for ContentLine {
    type V = ContentView;

    open spec fn view(&self) -> ContentView {
        ContentView { line_index: self.line_index as int, text: self.text@ }
    }
}

pub open spec fn task_views(ts: Seq<TaskItem>) -> Seq<TaskView> {
    ts.map_values(|t: TaskItem| t@)
}

pub open spec fn content_views(cs: Seq<ContentLine>) -> Seq<ContentView> {
    cs.map_values(|c: ContentLine| c@)
}

/// `"- [x] "`
pub open spec fn done_prefix() -> Seq<char> {
    done_mark().push(' ')
}

/// `"- [X] "`
pub open spec fn done_prefix_upper() -> Seq<char> {
    done_mark_upper().push(' ')
}

/// `"- [ ] "`
pub open spec fn open_prefix() -> Seq<char> {
    open_mark().push(' ')
}

/// A trimmed line that the panel shows as a task: it starts with one of the
/// three task prefixes.
pub open spec fn has_task_prefix(t: Seq<char>) -> bool {
    starts_with(t, done_prefix()) || starts_with(t, done_prefix_upper()) || starts_with(
        t,
        open_prefix(),
    )
}

/// The task on a line, if it is one: its text after the prefix, and whether
/// it is done.
pub open spec fn task_of_line(l: Seq<char>) -> Option<(Seq<char>, bool)> {
    let t = trim(l);
    if starts_with(t, done_prefix()) || starts_with(t, done_prefix_upper()) {
        Some((t.skip(6), true))
    } else if starts_with(t, open_prefix()) {
        Some((t.skip(6), false))
    } else {
        None
    }
}

/// The tasks among the lines, in order, each with its line's index.
pub open spec fn tasks_of_lines(ls: Seq<Seq<char>>) -> Seq<TaskView>
    decreases ls.len(),
{
    if ls.len() == 0 {
        Seq::empty()
    } else {
        let r = tasks_of_lines(ls.drop_last());
        match task_of_line(ls.last()) {
            Some(td) => r.push(TaskView { line_index: ls.len() - 1, text: td.0, done: td.1 }),
            None => r,
        }
    }
}

/// The lines from index `start` on that are neither blank nor tasks, each
/// trimmed and with its index.
pub open spec fn content_of_lines(ls: Seq<Seq<char>>, start: int) -> Seq<ContentView>
    decreases ls.len(),
{
    if ls.len() == 0 {
        Seq::empty()
    } else {
        let r = content_of_lines(ls.drop_last(), start);
        let k = ls.len() - 1;
        let t = trim(ls.last());
        if k >= start && t.len() > 0 && !has_task_prefix(t) {
            r.push(ContentView { line_index: k, text: t })
        } else {
            r
        }
    }
}

/// The number of lines that the front matter takes, the lines of both its
/// `---` delimiters included; 0 where there is none.
pub open spec fn front_matter_lines(s: Seq<char>) -> nat {
    match front_matter_split(s) {
        Some(k) => lines(s.take(k)).len() + 1,
        None => 0,
    }
}

fn prefixes() -> (r: (Vec<char>, Vec<char>, Vec<char>))
    ensures
        r.0@ == done_prefix(),
        r.1@ == done_prefix_upper(),
        r.2@ == open_prefix(),
{
    let mut d = done_mark_exec();
    d.push(' ');
    let mut u = done_mark_upper_exec();
    u.push(' ');
    let mut o = open_mark_exec();
    o.push(' ');
    (d, u, o)
}

/// The tasks of a note: each line whose trimmed text starts with `- [x] `,
/// `- [X] ` (done) or `- [ ] ` (open), with the text after that prefix.
pub fn parse_tasks(content: &str) -> (r: Vec<TaskItem>)
    ensures
        task_views(r@) == tasks_of_lines(lines(content@)),
{
    let v = chars_of(content);
    let spans = line_spans(&v);
    let ghost ls = lines(v@);
    let (dp, up, op) = prefixes();
    let mut tasks: Vec<TaskItem> = Vec::new();
    let mut k: usize = 0;
    while k < spans.len()
        invariant
            ls == lines(v@),
            spans@.len() == ls.len(),
            spans_ok(v@, spans@),
            forall|j: int| 0 <= j < spans@.len() ==> #[trigger] span(v@, spans@[j]) == ls[j],
            dp@ == done_prefix(),
            up@ == done_prefix_upper(),
            op@ == open_prefix(),
            k <= spans.len(),
            task_views(tasks@) == tasks_of_lines(ls.take(k as int)),
        decreases spans.len() - k,
    {
        let t = crate::notes::trimmed_line(&v, spans[k]);
        assert(ls.take(k + 1).drop_last() =~= ls.take(k as int));
        assert(ls.take(k + 1).last() == ls[k as int]);
        let ghost before = task_views(tasks@);
        let is_done = has_prefix(&t, &dp) || has_prefix(&t, &up);
        if is_done || has_prefix(&t, &op) {
            let text = string_of(&sub_vec(&t, 6, t.len()));
            assert(text@ =~= t@.skip(6));
            tasks.push(TaskItem { line_index: k, text, done: is_done });
            assert(task_views(tasks@) =~= before.push(
                TaskView { line_index: k as int, text: t@.skip(6), done: is_done },
            ));
        }
        k = k + 1;
    }
    assert(ls.take(k as int) =~= ls);
    tasks
}

/// The number of lines the front matter takes, 0 where there is none.
pub fn find_front_matter_end(content: &str) -> (n: usize)
    ensures
        n == front_matter_lines(content@),
{
    let v = chars_of(content);
    match front_matter_split_exec(&v) {
        Some(k) => {
            let head = sub_vec(&v, 0, k);
            assert(head@ =~= v@.take(k as int));
            proof {
                lemma_lines_of_lf_ended(head@);
            }
            line_spans(&head).len() + 1
        },
        None => 0,
    }
}

/// The lines of a note after its front matter that are neither blank nor
/// tasks, trimmed.
pub fn parse_content_lines(content: &str) -> (r: Vec<ContentLine>)
    ensures
        content_views(r@) == content_of_lines(lines(content@), front_matter_lines(content@) as int),
{
    let v = chars_of(content);
    let spans = line_spans(&v);
    let ghost ls = lines(v@);
    let fm_end = find_front_matter_end(content);
    let start = if fm_end > 0 {
        fm_end
    } else {
        0
    };
    let (dp, up, op) = prefixes();
    let mut result: Vec<ContentLine> = Vec::new();
    let mut k: usize = 0;
    while k < spans.len()
        invariant
            ls == lines(v@),
            spans@.len() == ls.len(),
            spans_ok(v@, spans@),
            forall|j: int| 0 <= j < spans@.len() ==> #[trigger] span(v@, spans@[j]) == ls[j],
            dp@ == done_prefix(),
            up@ == done_prefix_upper(),
            op@ == open_prefix(),
            start == front_matter_lines(v@),
            k <= spans.len(),
            content_views(result@) == content_of_lines(ls.take(k as int), start as int),
        decreases spans.len() - k,
    {
        assert(ls.take(k + 1).drop_last() =~= ls.take(k as int));
        assert(ls.take(k + 1).last() == ls[k as int]);
        if k >= start {
            let t = crate::notes::trimmed_line(&v, spans[k]);
            if t.len() > 0 && !(has_prefix(&t, &dp) || has_prefix(&t, &up) || has_prefix(
                &t,
                &op,
            )) {
                let ghost before = content_views(result@);
                let text = string_of(&t);
                result.push(ContentLine { line_index: k, text });
                assert(content_views(result@) =~= before.push(
                    ContentView { line_index: k as int, text: t@ },
                ));
            }
        }
        k = k + 1;
    }
    assert(ls.take(k as int) =~= ls);
    result
}

// ---------------------------------------------------------------- toggling

/// A task line with its state flipped: the checkbox that starts its trimmed
/// text becomes `- [ ]` where it was `- [x]` or `- [X]` (a done task), and
/// `- [x]` where it was `- [ ]`; the rest of the line is kept. Other lines
/// stay as they are.
pub open spec fn toggled_line(l: Seq<char>) -> Seq<char> {
    let a = ws_run(l, 0);
    let t = trim(l);
    if starts_with(t, done_prefix()) || starts_with(t, done_prefix_upper()) {
        l.take(a) + open_mark() + l.skip(a + 5)
    } else if starts_with(t, open_prefix()) {
        l.take(a) + done_mark() + l.skip(a + 5)
    } else {
        l
    }
}

/// The text of a note after the task on line `idx` is toggled: only that
/// line changes (see `replaced_line_text`).
pub open spec fn toggled_text(content: Seq<char>, idx: int) -> Seq<char> {
    replaced_line_text(content, idx, toggled_line(lines(content)[idx]))
}

/// The text an inline edit of a line starts from: for a task line, its text
/// after the checkbox, as the task list shows it; another line as it is.
pub open spec fn edit_value(line: Seq<char>, is_task: bool) -> Seq<char> {
    if is_task {
        match task_of_line(line) {
            Some(td) => td.0,
            None => line,
        }
    } else {
        line
    }
}

/// `edit_value` of a line.
pub fn edit_value_of(line: String, is_task: bool) -> (r: String)
    ensures
        r@ == edit_value(line@, is_task),
{
    if !is_task {
        return line;
    }
    let v = chars_of(line.as_str());
    let t = crate::notes::trimmed_line(&v, (0, v.len()));
    assert(v@.subrange(0, v@.len() as int) =~= v@);
    let (dp, up, op) = prefixes();
    if has_prefix(&t, &dp) || has_prefix(&t, &up) || has_prefix(&t, &op) {
        let text = string_of(&sub_vec(&t, 6, t.len()));
        assert(text@ =~= t@.skip(6));
        text
    } else {
        line
    }
}

/// A text that ends with `'\n'` has one line per `'\n'`: one fewer than its
/// pieces between `'\n'` characters, and no more than its length.
pub proof fn lemma_lines_of_lf_ended(s: Seq<char>)
    requires
        s.len() > 0,
        s.last() == '\n',
    ensures
        lines(s).len() == split_lf(s).len() - 1,
        lines(s).len() <= s.len(),
{
    lemma_split_lf_len_bound(s);
}

/// A text has at most one more piece between `'\n'` characters than it has
/// characters.
pub proof fn lemma_split_lf_len_bound(s: Seq<char>)
    ensures
        split_lf(s).len() <= s.len() + 1,
        s.len() > 0 && s.last() == '\n' ==> split_lf(s).last().len() == 0,
    decreases s.len(),
{
    if s.len() > 0 {
        lemma_split_lf_len_bound(s.drop_last());
        crate::text::lemma_split_lf_len(s.drop_last());
    }
}

/// `toggled_line` on a character vector.
pub fn toggle_line(l: &Vec<char>) -> (r: Vec<char>)
    ensures
        r@ == toggled_line(l@),
{
    let (a, e) = crate::text::trim_bounds(l);
    let t = sub_vec(l, a, e);
    let (dp, up, op) = prefixes();
    let is_done = has_prefix(&t, &dp) || has_prefix(&t, &up);
    if is_done || has_prefix(&t, &op) {
        let mut r = sub_vec(l, 0, a);
        let mark = if is_done {
            open_mark_exec()
        } else {
            done_mark_exec()
        };
        let mut i: usize = 0;
        let ghost head = r@;
        while i < 5
            invariant
                i <= 5,
                mark@.len() == 5,
                r@ == head + mark@.take(i as int),
            decreases 5 - i,
        {
            r.push(mark[i]);
            assert(mark@.take(i + 1) =~= mark@.take(i as int).push(mark@[i as int]));
            i = i + 1;
        }
        assert(mark@.take(5) =~= mark@);
        let tail = sub_vec(l, a + 5, l.len());
        let mut j: usize = 0;
        let ghost mid = r@;
        while j < tail.len()
            invariant
                j <= tail@.len(),
                r@ == mid + tail@.take(j as int),
            decreases tail.len() - j,
        {
            r.push(tail[j]);
            assert(tail@.take(j + 1) =~= tail@.take(j as int).push(tail@[j as int]));
            j = j + 1;
        }
        assert(tail@.take(tail@.len() as int) =~= tail@);
        assert(r@ =~= l@.take(a as int) + mark@ + l@.skip(a + 5));
        r
    } else {
        sub_vec(l, 0, l.len())
    }
}

/// The text of a note after the task on line `line_index` is toggled.
pub fn toggle_task_text(content: &str, line_index: usize) -> (r: String)
    ensures
        r@ == toggled_text(content@, line_index as int),
{
    let v = chars_of(content);
    let spans = line_spans(&v);
    if line_index < spans.len() {
        let sp = spans[line_index];
        let line = sub_vec(&v, sp.0, sp.1);
        assert(span(v@, spans@[line_index as int]) == lines(v@)[line_index as int]);
        assert(line@ == lines(v@)[line_index as int]);
        let repl = string_of(&toggle_line(&line));
        replace_line_text(content, line_index, repl.as_str())
    } else {
        String::from_str(content)
    }
}

} // verus!
