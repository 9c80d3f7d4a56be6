//! Notes on disk, as plain text: counting tasks, finding the front matter,
//! the text that appending a line or replacing a line produces, choosing the
//! recent notes, and resolving the notes directory.
use vstd::prelude::*;
use crate::bindings::{home_dir, joined_path, path_join, push_char};
use crate::order::{key_ints, sort_witness, stable_sort_desc, stable_sorted_desc};
use crate::text::{
    chars_of, ends_with_char, find, find_exec, has_prefix, join, join_pieces_replacing, line_spans,
    piece_spans, split_lf,
    lines, lemma_find_from, push_range, span, spans_ok, starts_with, sub_vec, trim, trim_bounds,
    utf8_len, utf8_prefix_len, ws_run,
};

verus! {

/// The configuration: where the notes live.
#[derive(Debug)]
pub struct Config {
    pub notes_path: String,
}

/// A note as the note list shows it.
#[derive(Clone, Debug)]
pub struct NoteInfo {
    pub name: String,
    pub path: String,
    pub modified: u64,
    pub task_count: u32,
    pub tasks_done: u32,
}

/// A `NoteInfo` as plain values.
pub struct NoteView {
    pub name: Seq<char>,
    pub path: Seq<char>,
    pub modified: u64,
    pub task_count: u32,
    pub tasks_done: u32,
}

impl View for NoteInfo {
    type V = NoteView;

    open spec fn view(&self) -> NoteView {
        NoteView {
            name: self.name@,
            path: self.path@,
            modified: self.modified,
            task_count: self.task_count,
            tasks_done: self.tasks_done,
        }
    }
}

impl NoteInfo {
    /// A copy of the note.
    pub fn duplicate(&self) -> (r: NoteInfo)
        ensures
            r@ == self@,
    {
        NoteInfo {
            name: self.name.clone(),
            path: self.path.clone(),
            modified: self.modified,
            task_count: self.task_count,
            tasks_done: self.tasks_done,
        }
    }
}

/// The views of a list of notes.
pub open spec fn note_views(ns: Seq<NoteInfo>) -> Seq<NoteView> {
    ns.map_values(|n: NoteInfo| n@)
}

// ---------------------------------------------------------------- task marks

/// `"- [x]"`
pub open spec fn done_mark() -> Seq<char> {
    seq!['-', ' ', '[', 'x', ']']
}

/// `"- [X]"`
pub open spec fn done_mark_upper() -> Seq<char> {
    seq!['-', ' ', '[', 'X', ']']
}

/// `"- [ ]"`
pub open spec fn open_mark() -> Seq<char> {
    seq!['-', ' ', '[', ' ', ']']
}

pub fn done_mark_exec() -> (v: Vec<char>)
    ensures
        v@ == done_mark(),
{
    vec!['-', ' ', '[', 'x', ']']
}

pub fn done_mark_upper_exec() -> (v: Vec<char>)
    ensures
        v@ == done_mark_upper(),
{
    vec!['-', ' ', '[', 'X', ']']
}

pub fn open_mark_exec() -> (v: Vec<char>)
    ensures
        v@ == open_mark(),
{
    vec!['-', ' ', '[', ' ', ']']
}

/// A line that counts as a finished task: after trimming it starts with
/// `- [x]` or `- [X]`.
pub open spec fn counts_done(l: Seq<char>) -> bool {
    starts_with(trim(l), done_mark()) || starts_with(trim(l), done_mark_upper())
}

/// A line that counts as a task at all: finished, or starting with `- [ ]`.
pub open spec fn counts_task(l: Seq<char>) -> bool {
    counts_done(l) || starts_with(trim(l), open_mark())
}

/// Number of finished tasks among the lines.
pub open spec fn done_count(ls: Seq<Seq<char>>) -> nat
    decreases ls.len(),
{
    if ls.len() == 0 {
        0
    } else {
        done_count(ls.drop_last()) + if counts_done(ls.last()) {
            1nat
        } else {
            0nat
        }
    }
}

/// Number of tasks among the lines.
pub open spec fn task_count(ls: Seq<Seq<char>>) -> nat
    decreases ls.len(),
{
    if ls.len() == 0 {
        0
    } else {
        task_count(ls.drop_last()) + if counts_task(ls.last()) {
            1nat
        } else {
            0nat
        }
    }
}

pub proof fn lemma_task_count_prefix(ls: Seq<Seq<char>>, k: int)
    requires
        0 <= k <= ls.len(),
    ensures
        task_count(ls.take(k)) <= task_count(ls),
        done_count(ls.take(k)) <= done_count(ls),
    decreases ls.len() - k,
{
    if k < ls.len() {
        lemma_task_count_prefix(ls, k + 1);
        assert(ls.take(k + 1).drop_last() =~= ls.take(k));
    } else {
        assert(ls.take(k) =~= ls);
    }
}

/// Every finished task is a task.
pub proof fn lemma_done_le_total(ls: Seq<Seq<char>>)
    ensures
        done_count(ls) <= task_count(ls),
    decreases ls.len(),
{
    if ls.len() > 0 {
        lemma_done_le_total(ls.drop_last());
    }
}

/// Whether the trimmed line `t` starts with `- [x]`/`- [X]`, and with `- [ ]`.
fn classify_trimmed(t: &Vec<char>) -> (r: (bool, bool))
    ensures
        r.0 == (starts_with(t@, done_mark()) || starts_with(t@, done_mark_upper())),
        r.1 == starts_with(t@, open_mark()),
{
    let d = has_prefix(t, &done_mark_exec()) || has_prefix(t, &done_mark_upper_exec());
    let o = has_prefix(t, &open_mark_exec());
    (d, o)
}

/// The trimmed text of line `sp` of `v`.
pub fn trimmed_line(v: &Vec<char>, sp: (usize, usize)) -> (t: Vec<char>)
    requires
        sp.0 <= sp.1 <= v@.len(),
    ensures
        t@ == trim(span(v@, sp)),
{
    let line = sub_vec(v, sp.0, sp.1);
    let (a, e) = trim_bounds(&line);
    sub_vec(&line, a, e)
}

/// Finished and total task counts of the lines of `content`, in `usize`.
pub fn task_tally(content: &str) -> (r: (usize, usize))
    ensures
        r.0 == done_count(lines(content@)),
        r.1 == task_count(lines(content@)),
{
    let v = chars_of(content);
    let spans = line_spans(&v);
    let ghost ls = lines(v@);
    let mut done: usize = 0;
    let mut total: usize = 0;
    let mut k: usize = 0;
    while k < spans.len()
        invariant
            ls == lines(v@),
            spans@.len() == ls.len(),
            spans_ok(v@, spans@),
            forall|j: int| 0 <= j < spans@.len() ==> #[trigger] span(v@, spans@[j]) == ls[j],
            k <= spans.len(),
            done == done_count(ls.take(k as int)),
            total == task_count(ls.take(k as int)),
            done <= total <= k,
        decreases spans.len() - k,
    {
        let t = trimmed_line(&v, spans[k]);
        let (d, o) = classify_trimmed(&t);
        assert(ls.take(k + 1).drop_last() =~= ls.take(k as int));
        assert(ls.take(k + 1).last() == ls[k as int]);
        if d {
            done = done + 1;
            total = total + 1;
        } else if o {
            total = total + 1;
        }
        k = k + 1;
    }
    assert(ls.take(k as int) =~= ls);
    (done, total)
}

/// Finished and total task counts of a note, as `(done, total)`.
pub fn count_tasks(content: &str) -> (r: (u32, u32))
    requires
        task_count(lines(content@)) <= u32::MAX,
    ensures
        r.0 == done_count(lines(content@)),
        r.1 == task_count(lines(content@)),
        r.0 <= r.1,
{
    let (d, t) = task_tally(content);
    proof {
        lemma_done_le_total(lines(content@));
    }
    (d as u32, t as u32)
}

// ---------------------------------------------------------------- front matter

/// `"---"`
pub open spec fn dashes() -> Seq<char> {
    seq!['-', '-', '-']
}

/// `"\n---"`
pub open spec fn closing_delim() -> Seq<char> {
    seq!['\n', '-', '-', '-']
}

/// Where the front matter ends, as a character index into `s`: `s` starts,
/// after leading whitespace, with `---`, and a later `\n---` closes it. The
/// index is that of the first `-` of the closing `---`, the character after
/// its `\n`. `None` where there is no front matter.
pub open spec fn front_matter_split(s: Seq<char>) -> Option<int> {
    let a = ws_run(s, 0);
    let t = s.skip(a);
    if !starts_with(t, dashes()) {
        None
    } else {
        match find(t.skip(3), closing_delim()) {
            Some(e) => Some(a + e + 4),
            None => None,
        }
    }
}

/// The front matter's end as a byte offset, 0 where there is none.
pub open spec fn front_matter_end(s: Seq<char>) -> nat {
    match front_matter_split(s) {
        Some(k) => utf8_len(s.take(k)),
        None => 0,
    }
}

/// `front_matter_split` on a character vector.
pub fn front_matter_split_exec(v: &Vec<char>) -> (r: Option<usize>)
    ensures
        r matches Some(k) ==> front_matter_split(v@) == Some(k as int) && 4 <= k < v@.len()
            && v@[k as int] == '-' && v@[k - 1] == '\n',
        r is None ==> front_matter_split(v@) is None,
{
    let (a, _e) = trim_bounds(v);
    proof {
        crate::text::lemma_ws_run_bounds(v@, 0);
    }
    let t = sub_vec(v, a, v.len());
    assert(t@ =~= v@.skip(a as int));
    let dashes_v: Vec<char> = vec!['-', '-', '-'];
    if !has_prefix(&t, &dashes_v) {
        return None;
    }
    let after = sub_vec(&t, 3, t.len());
    assert(after@ =~= t@.skip(3));
    let delim: Vec<char> = vec!['\n', '-', '-', '-'];
    match find_exec(&after, &delim, 0) {
        Some(e) => {
            proof {
                lemma_find_from(after@, delim@, 0);
                assert(after@.subrange(e as int, e + 4)[1] == '-');
                assert(after@.subrange(e as int, e + 4)[0] == '\n');
                assert(t@[e + 3] == '\n');
            }
            let mut idx = e + 4;
            while idx < t.len() && (t[idx] == '\n' || t[idx] == '\r')
                invariant
                    idx == e + 4 < t@.len(),
                    t@[idx as int] == '-',
                decreases t.len() - idx,
            {
                idx = idx + 1;
            }
            Some(a + idx)
        },
        None => None,
    }
}

/// Byte offset where the front matter of `content` ends (see
/// `front_matter_split`), or 0 where it has none.
pub fn find_front_matter_end(content: &str) -> (n: usize)
    ensures
        n == front_matter_end(content@),
{
    let bytes_len = content.as_bytes().len();
    let v = chars_of(content);
    assert(utf8_len(v@) == bytes_len);
    match front_matter_split_exec(&v) {
        Some(k) => utf8_prefix_len(&v, k),
        None => 0,
    }
}

// ---------------------------------------------------------------- appending

/// The text of a note after `content` is appended as a line: the old text,
/// a newline where it did not end with one, then `content` and a newline.
pub open spec fn appended_text(raw: Seq<char>, content: Seq<char>) -> Seq<char> {
    (if ends_with_char(raw, '\n') {
        raw
    } else {
        raw.push('\n')
    }) + content.push('\n')
}

fn push_str_chars(out: &mut String, v: &Vec<char>)
    ensures
        final(out)@ == old(out)@ + v@,
{
    push_range(out, v, 0, v.len());
    assert(v@.subrange(0, v@.len() as int) =~= v@);
}

/// The text to write when `content` is appended to a note whose present text
/// is `existing` (`None`: the note does not exist yet). The front matter, where
/// there is one, is kept as it is, and the line goes after the body.
pub fn appended_note(existing: Option<&str>, content: &str) -> (r: String)
    ensures
        r@ == match existing {
            Some(raw) => appended_text(raw@, content@),
            None => content@.push('\n'),
        },
{
    let c = chars_of(content);
    match existing {
        None => {
            let mut out = String::new();
            push_str_chars(&mut out, &c);
            push_char(&mut out, '\n');
            out
        },
        Some(raw) => {
            let v = chars_of(raw);
            match front_matter_split_exec(&v) {
                None => {
                    let mut updated = String::new();
                    push_str_chars(&mut updated, &v);
                    if !(v.len() > 0 && v[v.len() - 1] == '\n') {
                        push_char(&mut updated, '\n');
                    }
                    push_str_chars(&mut updated, &c);
                    push_char(&mut updated, '\n');
                    updated
                },
                Some(k) => {
                    let mut front = String::new();
                    push_range(&mut front, &v, 0, k);
                    let mut body = String::new();
                    push_range(&mut body, &v, k, v.len());
                    let body_ends = v[v.len() - 1] == '\n';
                    if !body_ends {
                        push_char(&mut body, '\n');
                    }
                    push_str_chars(&mut body, &c);
                    push_char(&mut body, '\n');
                    let mut result = front;
                    let ghost f = result@;
                    let ghost b = body@;
                    push_range_string(&mut result, &body);
                    proof {
                        assert(v@ =~= v@.subrange(0, k as int) + v@.subrange(k as int, v@.len() as int));
                        if body_ends {
                            assert(result@ =~= v@ + c@.push('\n'));
                        } else {
                            assert(result@ =~= v@.push('\n') + c@.push('\n'));
                        }
                    }
                    result
                },
            }
        },
    }
}

fn push_range_string(out: &mut String, s: &String)
    ensures
        final(out)@ == old(out)@ + s@,
{
    let v = chars_of(s.as_str());
    push_str_chars(out, &v);
}

// ---------------------------------------------------------------- replacing a line

/// The piece (text between `'\n'` characters) that stands for line `idx`
/// once it reads `new_line`: where the old piece ended with the `'\r'` of a
/// `\r\n` ending, that `'\r'` is kept.
pub open spec fn line_piece(p: Seq<Seq<char>>, idx: int, new_line: Seq<char>) -> Seq<char> {
    if idx < p.len() - 1 && p[idx].len() > 0 && p[idx].last() == '\r' {
        new_line.push('\r')
    } else {
        new_line
    }
}

/// The text after line `idx` of `content` is replaced by `new_line`: only
/// that line's characters change; its line ending and every other character
/// of `content` stay as they were. Where there is no line `idx`, `content`.
pub open spec fn replaced_line_text(content: Seq<char>, idx: int, new_line: Seq<char>) -> Seq<
    char,
> {
    let p = split_lf(content);
    if 0 <= idx < lines(content).len() {
        join(p.update(idx, line_piece(p, idx, new_line)), seq!['\n'])
    } else {
        content
    }
}

/// A text has at most as many lines as pieces between `'\n'` characters.
pub proof fn lemma_lines_le_pieces(s: Seq<char>)
    ensures
        lines(s).len() <= split_lf(s).len(),
        lines(s).len() >= split_lf(s).len() - 1,
{
    crate::text::lemma_split_lf_len(s);
}

/// The text of a note after line `line_index` is replaced by `new_content`.
pub fn replace_line_text(content: &str, line_index: usize, new_content: &str) -> (r: String)
    ensures
        r@ == replaced_line_text(content@, line_index as int, new_content@),
{
    let v = chars_of(content);
    let n_lines = line_spans(&v).len();
    if line_index < n_lines {
        let ps = piece_spans(&v);
        let ghost p = split_lf(v@);
        proof {
            lemma_lines_le_pieces(v@);
        }
        let sp = ps[line_index];
        assert(span(v@, ps@[line_index as int]) == p[line_index as int]);
        let ends_cr = line_index + 1 < ps.len() && sp.0 < sp.1 && v[sp.1 - 1] == '\r';
        let mut repl = chars_of(new_content);
        if ends_cr {
            repl.push('\r');
        }
        assert(repl@ == line_piece(p, line_index as int, new_content@));
        join_pieces_replacing(&v, &ps, Ghost(p), line_index, &repl)
    } else {
        String::from_str(content)
    }
}

// ---------------------------------------------------------------- paths

/// `"~/"`
pub open spec fn tilde_slash() -> Seq<char> {
    seq!['~', '/']
}

/// `path` with a leading `~/` replaced by the home directory, where the
/// path has that prefix and a home directory is known; `path` itself otherwise.
pub open spec fn expanded_path(path: Seq<char>, home: Option<Seq<char>>) -> Seq<char> {
    match home {
        Some(h) => if starts_with(path, tilde_slash()) {
            joined_path(h, path.skip(2))
        } else {
            path
        },
        None => path,
    }
}

pub open spec fn str_view(o: Option<&str>) -> Option<Seq<char>> {
    match o {
        Some(s) => Some(s@),
        None => None,
    }
}

/// `expand_path` given the home directory (`None`: unknown).
pub fn expand_path_with_home(path: &str, home: Option<&str>) -> (r: String)
    ensures
        r@ == expanded_path(path@, str_view(home)),
{
    let v = chars_of(path);
    let tilde: Vec<char> = vec!['~', '/'];
    if has_prefix(&v, &tilde) {
        if let Some(h) = home {
            let rest = crate::text::string_of(&sub_vec(&v, 2, v.len()));
            assert(rest@ =~= path@.skip(2));
            return path_join(h, rest.as_str());
        }
    }
    String::from_str(path)
}

/// Expands a leading `~/` of `path` to the user's home directory, where the
/// environment gives one; other paths are returned as they are.
pub fn expand_path(path: &str) -> (r: String)
    ensures
        !starts_with(path@, tilde_slash()) ==> r@ == path@,
        starts_with(path@, tilde_slash()) ==> r@ == path@ || exists|h: Seq<char>|
            h.len() > 0 && r@ == joined_path(h, path@.skip(2)),
{
    let home = home_dir();
    match home {
        Some(h) => expand_path_with_home(path, Some(h.as_str())),
        None => expand_path_with_home(path, None),
    }
}

/// The directory of the notes that `config` names, with `~/` expanded.
pub fn resolve_notes_path(config: &Config) -> (r: String)
    ensures
        !starts_with(config.notes_path@, tilde_slash()) ==> r@ == config.notes_path@,
        starts_with(config.notes_path@, tilde_slash()) ==> r@ == config.notes_path@ || exists|
            h: Seq<char>,
        | h.len() > 0 && r@ == joined_path(h, config.notes_path@.skip(2)),
{
    expand_path(config.notes_path.as_str())
}

// ---------------------------------------------------------------- recent notes

/// `".md"`
pub open spec fn md_suffix() -> Seq<char> {
    seq!['.', 'm', 'd']
}

/// The stem of a file name whose extension (`Path::extension`) is `md`: the
/// name ends with `.md` and something comes before that dot.
pub open spec fn md_stem(name: Seq<char>) -> Option<Seq<char>> {
    if name.len() >= 4 && name.skip(name.len() - 3) == md_suffix() {
        Some(name.take(name.len() - 3))
    } else {
        None
    }
}

/// The note name of a file in the notes directory: its stem where its
/// extension is `md`, `None` for any other file.
pub fn md_note_name(file_name: &str) -> (r: Option<String>)
    ensures
        r matches Some(s) ==> md_stem(file_name@) == Some(s@),
        r is None ==> md_stem(file_name@) is None,
{
    let v = chars_of(file_name);
    let n = v.len();
    if n >= 4 && v[n - 3] == '.' && v[n - 2] == 'm' && v[n - 1] == 'd' {
        assert(v@.skip(n - 3) =~= md_suffix());
        let stem = crate::text::string_of(&sub_vec(&v, 0, n - 3));
        assert(stem@ =~= v@.take(n - 3));
        Some(stem)
    } else {
        proof {
            if n >= 4 && v@.skip(n - 3) == md_suffix() {
                assert(v@.skip(n - 3)[0] == '.');
                assert(v@.skip(n - 3)[1] == 'm');
                assert(v@.skip(n - 3)[2] == 'd');
            }
        }
        None
    }
}

/// A file found in the notes directory: its name, its path as text, its
/// modification time (seconds since the epoch, 0 where unknown) and its text
/// (empty where it could not be read).
pub struct ScannedNote {
    pub file_name: String,
    pub path: String,
    pub modified: u64,
    pub content: String,
}

/// The note a scanned file stands for, if it is a note (`.md`).
pub open spec fn note_of_file(f: ScannedNote) -> Option<NoteView> {
    match md_stem(f.file_name@) {
        Some(stem) => Some(
            NoteView {
                name: stem,
                path: f.path@,
                modified: f.modified,
                task_count: task_count(lines(f.content@)) as u32,
                tasks_done: done_count(lines(f.content@)) as u32,
            },
        ),
        None => None,
    }
}

/// The notes among the scanned files, in the order they were found.
pub open spec fn notes_of_files(fs: Seq<ScannedNote>) -> Seq<NoteView>
    decreases fs.len(),
{
    if fs.len() == 0 {
        Seq::empty()
    } else {
        let r = notes_of_files(fs.drop_last());
        match note_of_file(fs.last()) {
            Some(n) => r.push(n),
            None => r,
        }
    }
}

/// The number of notes the recent list holds at most.
pub open spec fn recent_limit() -> int {
    5
}

/// The modification times of the notes, as sort keys.
pub open spec fn modified_keys(notes: Seq<NoteView>) -> Seq<int> {
    notes.map_values(|n: NoteView| n.modified as int)
}

/// `out` is what the recent list shows of `notes`: sorted newest first
/// (stably: notes with equal times keep their order), then cut to the limit.
pub open spec fn newest_first(notes: Seq<NoteView>, out: Seq<NoteView>) -> bool {
    exists|sorted: Seq<NoteView>|
        #[trigger] stable_sorted_desc(notes, modified_keys(notes), sorted)
            && out == sorted.take(
            if notes.len() < recent_limit() {
                notes.len() as int
            } else {
                recent_limit()
            },
        )
}

pub proof fn lemma_sort_witness_views(
    input: Seq<NoteInfo>,
    keys: Seq<int>,
    out: Seq<NoteInfo>,
    p: Seq<int>,
)
    requires
        sort_witness(input, keys, out, p),
    ensures
        sort_witness(note_views(input), keys, note_views(out), p),
{
    assert forall|k: int| 0 <= k < p.len() implies note_views(out)[k] == note_views(
        input,
    )[#[trigger] p[k]] by {
        assert(out[k] == input[p[k]]);
    }
}

/// The recent notes among `notes`: newest first, at most five.
pub fn select_recent(notes: Vec<NoteInfo>) -> (r: Vec<NoteInfo>)
    ensures
        newest_first(note_views(notes@), note_views(r@)),
{
    let ghost views = note_views(notes@);
    let mut keys: Vec<u128> = Vec::new();
    let mut i: usize = 0;
    while i < notes.len()
        invariant
            i <= notes@.len(),
            keys@.len() == i,
            forall|k: int| 0 <= k < i ==> keys@[k] as int == notes@[k].modified as int,
        decreases notes.len() - i,
    {
        keys.push(notes[i].modified as u128);
        i = i + 1;
    }
    let ghost mkeys = modified_keys(views);
    assert(key_ints(keys@) =~= mkeys);
    let ghost input = notes@;
    let mut sorted = stable_sort_desc(notes, &keys);
    let ghost sorted_all = sorted@;
    proof {
        let p = choose|p: Seq<int>| sort_witness(input, key_ints(keys@), sorted_all, p);
        lemma_sort_witness_views(input, key_ints(keys@), sorted_all, p);
        assert(stable_sorted_desc(views, mkeys, note_views(sorted_all)));
    }
    sorted.truncate(5);
    assert(note_views(sorted@) =~= note_views(sorted_all).take(
        if views.len() < recent_limit() { views.len() as int } else { recent_limit() },
    ));
    sorted
}

/// The recent notes of a scan of the notes directory: the `.md` files, with
/// their task counts, newest first, at most five.
pub fn get_recent_notes_from(files: &Vec<ScannedNote>) -> (r: Vec<NoteInfo>)
    requires
        forall|i: int|
            0 <= i < files@.len() ==> task_count(lines(#[trigger] files@[i].content@)) <= u32::MAX,
    ensures
        newest_first(notes_of_files(files@), note_views(r@)),
{
    let mut notes: Vec<NoteInfo> = Vec::new();
    let mut i: usize = 0;
    while i < files.len()
        invariant
            i <= files@.len(),
            forall|j: int|
                0 <= j < files@.len() ==> task_count(lines(#[trigger] files@[j].content@))
                    <= u32::MAX,
            note_views(notes@) == notes_of_files(files@.take(i as int)),
        decreases files.len() - i,
    {
        let f = &files[i];
        assert(files@.take(i + 1).drop_last() =~= files@.take(i as int));
        assert(files@.take(i + 1).last() == files@[i as int]);
        match md_note_name(f.file_name.as_str()) {
            Some(name) => {
                let (done, total) = count_tasks(f.content.as_str());
                let ghost before = note_views(notes@);
                notes.push(
                    NoteInfo {
                        name,
                        path: f.path.clone(),
                        modified: f.modified,
                        task_count: total,
                        tasks_done: done,
                    },
                );
                assert(note_views(notes@) =~= before.push(note_of_file(*f)->0));
            },
            None => {},
        }
        i = i + 1;
    }
    assert(files@.take(files@.len() as int) =~= files@);
    select_recent(notes)
}

} // verus!
