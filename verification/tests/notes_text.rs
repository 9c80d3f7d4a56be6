use overlay_core::notes::find_front_matter_end;
use overlay_core::tasks::{
    find_front_matter_end as front_matter_lines, parse_content_lines, parse_tasks, toggle_task_text,
};
use overlay_core::{
    appended_note, count_tasks, expand_path, expand_path_with_home, get_recent_notes_from,
    md_note_name, replace_line_text, resolve_notes_path, Config, NoteInfo, ScannedNote,
};

#[test]
fn count_tasks_mixed_marks() {
    let text = "- [x] a\n- [ ] b\n  - [X] c\nplain\n- [x]";
    assert_eq!(count_tasks(text), (3, 4));
}

#[test]
fn count_tasks_empty_and_plain() {
    assert_eq!(count_tasks(""), (0, 0));
    assert_eq!(count_tasks("-[x] a\n[ ] b\n* [x] c"), (0, 0));
}

#[test]
fn count_tasks_crlf_and_unicode_space() {
    assert_eq!(count_tasks("\t- [ ]\r\n"), (0, 1));
    assert_eq!(count_tasks("\u{00A0}- [x] a\n\u{3000}- [ ] b"), (1, 2));
}

#[test]
fn front_matter_end_is_byte_offset_of_closing_dashes() {
    assert_eq!(find_front_matter_end("---\ntitle: x\n---\nbody"), 13);
    assert_eq!(find_front_matter_end("  ---\na\n---"), 8);
    assert_eq!(find_front_matter_end("---\n\u{e9}\n---\n"), 7);
    assert_eq!(find_front_matter_end("---\n---"), 4);
}

#[test]
fn front_matter_absent() {
    assert_eq!(find_front_matter_end("no front matter"), 0);
    assert_eq!(find_front_matter_end("---\nnever closed"), 0);
    assert_eq!(find_front_matter_end(""), 0);
    assert_eq!(find_front_matter_end("x\n---\ny\n---"), 0);
}

#[test]
fn front_matter_line_count() {
    assert_eq!(front_matter_lines("---\ntitle: x\n---\nbody"), 3);
    assert_eq!(front_matter_lines("---\na: 1\n---\nbody"), 3);
    assert_eq!(front_matter_lines("plain"), 0);
    assert_eq!(front_matter_lines("---\n---\n"), 2);
}

#[test]
fn parse_tasks_reads_prefixes_and_indices() {
    let text = "# T\n- [x] done item\n  - [ ] open item  \n- [X] Upper\n- [x]\nnot - [ ] task";
    let tasks = parse_tasks(text);
    let got: Vec<(usize, String, bool)> =
        tasks.into_iter().map(|t| (t.line_index, t.text, t.done)).collect();
    assert_eq!(
        got,
        vec![
            (1, "done item".to_string(), true),
            (2, "open item".to_string(), false),
            (3, "Upper".to_string(), true),
        ]
    );
}

#[test]
fn parse_content_lines_skips_front_matter_blank_and_tasks() {
    let text = "---\na: 1\n---\n\n# Title\n- [ ] t\n  text  ";
    let got: Vec<(usize, String)> = parse_content_lines(text)
        .into_iter()
        .map(|c| (c.line_index, c.text))
        .collect();
    assert_eq!(
        got,
        vec![(4, "# Title".to_string()), (6, "text".to_string())]
    );
}

#[test]
fn parse_content_lines_leave_out_both_delimiters() {
    let got: Vec<(usize, String)> =
        parse_content_lines("---\ntitle: x\n---\nHello\n- [ ] t\n\nWorld")
            .into_iter()
            .map(|c| (c.line_index, c.text))
            .collect();
    assert_eq!(got, vec![(3, "Hello".to_string()), (6, "World".to_string())]);
}

#[test]
fn tasks_and_content_lines_split_the_body() {
    let text = "---\na: 1\n---\nintro\n- [ ] t\n- [x] d\n\n- [X] u\nend";
    let tasks: Vec<usize> = parse_tasks(text).into_iter().map(|t| t.line_index).collect();
    let content: Vec<usize> =
        parse_content_lines(text).into_iter().map(|c| c.line_index).collect();
    assert_eq!(tasks, vec![4, 5, 7]);
    assert_eq!(content, vec![3, 8]);
}

#[test]
fn task_counts_agree_with_task_list() {
    let text = "- [ ] a\n- [x] b\n  - [X] c\nplain";
    let (done, total) = count_tasks(text);
    let tasks = parse_tasks(text);
    assert_eq!(total as usize, tasks.len());
    assert_eq!(done as usize, tasks.iter().filter(|t| t.done).count());
}

#[test]
fn parse_content_lines_without_front_matter() {
    let got: Vec<(usize, String)> = parse_content_lines("a\n\n- [x] b\n c ")
        .into_iter()
        .map(|c| (c.line_index, c.text))
        .collect();
    assert_eq!(got, vec![(0, "a".to_string()), (3, "c".to_string())]);
}

#[test]
fn toggle_open_and_done_tasks() {
    assert_eq!(toggle_task_text("a\n- [ ] x\n- [x] y", 1), "a\n- [x] x\n- [x] y");
    assert_eq!(toggle_task_text("a\n- [ ] x\n- [x] y", 2), "a\n- [ ] x\n- [ ] y");
    assert_eq!(toggle_task_text("  - [X] z", 0), "  - [ ] z");
}

#[test]
fn toggle_leaves_other_lines_and_out_of_range() {
    assert_eq!(toggle_task_text("a\n- [ ] x\n- [x] y", 0), "a\n- [ ] x\n- [x] y");
    assert_eq!(toggle_task_text("a\n- [ ] x", 9), "a\n- [ ] x");
}

#[test]
fn toggle_keeps_line_endings() {
    assert_eq!(toggle_task_text("- [ ] x\n", 0), "- [x] x\n");
    assert_eq!(toggle_task_text("- [ ] a\r\nb", 0), "- [x] a\r\nb");
    assert_eq!(toggle_task_text("a\n- [x] b\n\n", 1), "a\n- [ ] b\n\n");
}

#[test]
fn toggle_flips_only_the_checkbox() {
    assert_eq!(toggle_task_text("- [X] a - [x] b", 0), "- [ ] a - [x] b");
    assert_eq!(toggle_task_text("- [x] a - [X] b", 0), "- [ ] a - [X] b");
    assert_eq!(toggle_task_text("- [ ] a - [ ] b", 0), "- [x] a - [ ] b");
}

#[test]
fn toggle_twice_restores_note() {
    let text = "# t\r\n- [x] done\r\n\n- [ ] open\n";
    assert_eq!(toggle_task_text(&toggle_task_text(text, 1), 1), text);
    assert_eq!(toggle_task_text(&toggle_task_text(text, 3), 3), text);
}

#[test]
fn toggle_twice_restores_open_task() {
    let line = "  - [ ] buy milk";
    let once = toggle_task_text(line, 0);
    assert_eq!(once, "  - [x] buy milk");
    assert_eq!(toggle_task_text(&once, 0), line);
}

#[test]
fn replace_line_examples() {
    assert_eq!(replace_line_text("a\nb\nc", 1, "B"), "a\nB\nc");
    assert_eq!(replace_line_text("a\nb\nc", 5, "B"), "a\nb\nc");
    assert_eq!(replace_line_text("a\r\nb\n", 0, "X"), "X\r\nb\n");
    assert_eq!(replace_line_text("a\nb\n", 0, "z"), "z\nb\n");
    assert_eq!(replace_line_text("a\nb\n\n", 5, "z"), "a\nb\n\n");
    assert_eq!(replace_line_text("", 0, "X"), "");
}

#[test]
fn replace_line_by_itself_keeps_note() {
    let text = "a\r\n  b \n\nc";
    for (i, l) in text.lines().enumerate() {
        assert_eq!(replace_line_text(text, i, l), text);
    }
}

#[test]
fn replaced_line_reads_back() {
    let text = "uno\ndos\r\ntres\n";
    let out = replace_line_text(text, 1, "DOS");
    let lines: Vec<&str> = out.lines().collect();
    assert_eq!(lines, vec!["uno", "DOS", "tres"]);
    assert_eq!(overlay_core::overlay::line_of(&out, 1), "DOS");
}

#[test]
fn appended_note_new_and_existing() {
    assert_eq!(appended_note(None, "hola"), "hola\n");
    assert_eq!(appended_note(Some("abc"), "x"), "abc\nx\n");
    assert_eq!(appended_note(Some("abc\n"), "x"), "abc\nx\n");
    assert_eq!(appended_note(Some(""), "x"), "\nx\n");
}

#[test]
fn appended_note_keeps_front_matter() {
    let raw = "---\nt: 1\n---\nbody";
    let out = appended_note(Some(raw), "x");
    assert_eq!(out, "---\nt: 1\n---\nbody\nx\n");
    assert_eq!(find_front_matter_end(&out), find_front_matter_end(raw));
    assert_eq!(front_matter_lines(&out), front_matter_lines(raw));
}

#[test]
fn md_note_names() {
    assert_eq!(md_note_name("nota.md"), Some("nota".to_string()));
    assert_eq!(md_note_name("ab.md"), Some("ab".to_string()));
    assert_eq!(md_note_name("a..md"), Some("a.".to_string()));
    assert_eq!(md_note_name(".md"), None);
    assert_eq!(md_note_name("a.md.txt"), None);
    assert_eq!(md_note_name("x.MD"), None);
    assert_eq!(md_note_name("md"), None);
}

fn scanned(name: &str, modified: u64, content: &str) -> ScannedNote {
    ScannedNote {
        file_name: name.to_string(),
        path: format!("/n/{}", name),
        modified,
        content: content.to_string(),
    }
}

#[test]
fn recent_notes_newest_first_at_most_five() {
    let files = vec![
        scanned("a.md", 10, "- [x] t\n- [ ] u"),
        scanned("b.md", 50, ""),
        scanned("skip.txt", 99, ""),
        scanned("c.md", 30, ""),
        scanned("d.md", 30, "- [ ] x"),
        scanned("e.md", 70, ""),
        scanned("f.md", 5, ""),
        scanned("g.md", 60, ""),
    ];
    let out = get_recent_notes_from(&files);
    let names: Vec<&str> = out.iter().map(|n| n.name.as_str()).collect();
    assert_eq!(names, vec!["e", "g", "b", "c", "d"]);
    assert_eq!(out[4].task_count, 1);
    assert_eq!(out[4].tasks_done, 0);
    assert_eq!(out[0].path, "/n/e.md");
}

#[test]
fn recent_notes_counts_tasks() {
    let files = vec![scanned("a.md", 1, "- [x] t\n- [ ] u\n- [X] v")];
    let out = get_recent_notes_from(&files);
    assert_eq!(out.len(), 1);
    assert_eq!((out[0].tasks_done, out[0].task_count), (2, 3));
}

#[test]
fn recent_notes_empty() {
    assert!(get_recent_notes_from(&Vec::new()).is_empty());
}

#[test]
fn expand_path_with_known_home() {
    assert_eq!(expand_path_with_home("~/notes", Some("/home/u")), "/home/u/notes");
    assert_eq!(expand_path_with_home("/abs/notes", Some("/home/u")), "/abs/notes");
    assert_eq!(expand_path_with_home("~/x", None), "~/x");
    assert_eq!(expand_path_with_home("~", Some("/h")), "~");
    assert_eq!(expand_path_with_home("~//etc", Some("/h")), "/etc");
}

#[test]
fn expand_path_uses_environment() {
    assert_eq!(expand_path("/plain/path"), "/plain/path");
    let r = expand_path("~/docs");
    assert!(r == "~/docs" || (r.ends_with("/docs") && !r.starts_with('~')));
}

#[test]
fn resolve_notes_path_plain() {
    let config = Config { notes_path: "/data/notes".to_string() };
    assert_eq!(resolve_notes_path(&config), "/data/notes");
}

#[test]
fn note_info_duplicate() {
    let n = NoteInfo {
        name: "a".to_string(),
        path: "/a.md".to_string(),
        modified: 3,
        task_count: 2,
        tasks_done: 1,
    };
    let d = n.duplicate();
    assert_eq!((d.name, d.path, d.modified, d.task_count, d.tasks_done), ("a".to_string(), "/a.md".to_string(), 3, 2, 1));
}

