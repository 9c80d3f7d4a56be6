use overlay_core::labels::{
    format_note_name, format_note_name_with, relative_time, relative_time_at, session_file_name,
    session_file_name_for,
};
use overlay_core::overlay::{
    panel_path_for, Awaiting, Command, Overlay, OverlayMode, PanelState, ResizeEdge, Response,
    WindowTask,
};
use overlay_core::overlay::{dashed_title, note_title_of};
use overlay_core::rows::{note_sub_text_at, without_md};
use overlay_core::{Day, NoteInfo, Stamp};

fn note(name: &str, modified: u64) -> NoteInfo {
    NoteInfo {
        name: name.to_string(),
        path: format!("/n/{}.md", name),
        modified,
        task_count: 0,
        tasks_done: 0,
    }
}

fn strings(v: &[&str]) -> Vec<String> {
    v.iter().map(|s| s.to_string()).collect()
}

fn overlay() -> Overlay {
    let notes = vec![note("a", 10), note("b", 30), note("inbox-s", 5), note("c", 20), note("d", 40)];
    let panel = PanelState { pinned: strings(&["c"]), hidden: strings(&["d"]), window_w: 0, window_h: 0 };
    Overlay::new("/n".to_string(), notes, "inbox-s.md".to_string(), panel)
}

fn finish(c: Command) -> WindowTask {
    match c {
        Command::Finish(t) => t,
        _ => panic!("expected the action to end"),
    }
}

#[test]
fn new_overlay_defaults() {
    let o = overlay();
    assert!(o.mode == OverlayMode::Normal);
    assert_eq!(o.selected_file, "inbox-s.md");
    assert_eq!(o.window_size, (428, 280));
    assert_eq!(o.margin, (0, 0, 0, 0));
    let panel = PanelState { pinned: vec![], hidden: vec![], window_w: 5000, window_h: 10 };
    let o2 = Overlay::new(String::new(), vec![], "s.md".to_string(), panel);
    assert_eq!(o2.window_size, (800, 200));
}

#[test]
fn shown_order_pinned_session_then_newest() {
    let o = overlay();
    let names: Vec<&str> = o.sorted_visible_notes().iter().map(|n| n.name.as_str()).collect();
    assert_eq!(names, vec!["c", "inbox-s", "b", "a"]);
}

#[test]
fn window_height_fits_list() {
    let o = overlay();
    assert_eq!(o.calc_window_height(), 282);
    let empty = Overlay::new(
        String::new(),
        vec![],
        "s.md".to_string(),
        PanelState { pinned: vec![], hidden: vec![], window_w: 0, window_h: 0 },
    );
    assert_eq!(empty.calc_window_height(), 248);
}

#[test]
fn append_flow_success() {
    let mut o = overlay();
    o.on_input_changed("  hola  ".to_string());
    o.on_input_submitted();
    match o.next_command() {
        Command::AppendToNote { filename, text } => {
            assert_eq!(filename, "inbox-s.md");
            assert_eq!(text, "hola");
        }
        _ => panic!("expected an append"),
    }
    assert!(o.awaiting == Awaiting::Append);
    match o.resume(Response::Appended(Ok(()))) {
        Command::LoadNotes => {}
        _ => panic!("expected a rescan"),
    }
    assert_eq!(o.status_msg, "\u{2713}");
    assert_eq!(o.input_value, "");
    let t = finish(o.resume(Response::Notes(vec![note("z", 1)])));
    assert!(t == WindowTask::Nothing);
    assert_eq!(o.notes.len(), 1);
}

#[test]
fn append_flow_failure_and_empty_input() {
    let mut o = overlay();
    o.on_input_changed("x".to_string());
    o.on_input_submitted();
    let _ = o.next_command();
    let t = finish(o.resume(Response::Appended(Err("boom".to_string()))));
    assert!(t == WindowTask::Nothing);
    assert_eq!(o.status_msg, "\u{2717} boom");
    assert_eq!(o.input_value, "x");
    o.on_input_changed("   ".to_string());
    o.on_input_submitted();
    assert!(finish(o.next_command()) == WindowTask::Nothing);
}

#[test]
fn create_note_flow() {
    let mut o = overlay();
    o.on_new_note_clicked();
    assert!(o.mode == OverlayMode::CreatingNote);
    o.on_input_changed("  Mi Nota/Uno ".to_string());
    o.on_input_submitted();
    assert!(o.mode == OverlayMode::Normal);
    assert_eq!(o.selected_file, "mi-nota-uno.md");
    assert_eq!(o.input_value, "");
    match o.next_command() {
        Command::CreateNoteFile { filename } => assert_eq!(filename, "mi-nota-uno.md"),
        _ => panic!("expected the file to be created"),
    }
    match o.resume(Response::Done) {
        Command::LoadNotes => {}
        _ => panic!("expected a rescan"),
    }
}

#[test]
fn create_note_with_blank_title() {
    let mut o = overlay();
    o.on_new_note_clicked();
    o.on_input_changed("   ".to_string());
    o.on_create_note();
    assert!(o.mode == OverlayMode::Normal);
    assert_eq!(o.input_value, "   ");
    assert!(finish(o.next_command()) == WindowTask::Nothing);
}

#[test]
fn note_titles() {
    assert_eq!(note_title_of(&"  Mi Nota/Uno ".to_string()), "mi-nota-uno");
    assert_eq!(note_title_of(&"\u{c1}RBOL Grande".to_string()), "\u{e1}rbol-grande");
}

#[test]
fn expand_then_collapse() {
    let mut o = overlay();
    o.on_note_clicked(0);
    assert_eq!(o.expanded_note.as_deref(), Some("c"));
    assert_eq!(o.selected_file, "c.md");
    match o.next_command() {
        Command::ReadNote { filename } => assert_eq!(filename, "c.md"),
        _ => panic!("expected a read"),
    }
    let t = finish(o.resume(Response::Read(Ok("- [ ] t\ntext".to_string()))));
    assert!(t == WindowTask::Resize(428, 482));
    assert_eq!(o.expanded_tasks.len(), 1);
    assert_eq!(o.expanded_content_lines.len(), 1);
    o.on_note_clicked(0);
    assert!(o.expanded_note.is_none());
    assert!(o.expanded_tasks.is_empty());
    assert!(finish(o.next_command()) == WindowTask::Resize(428, 282));
}

#[test]
fn expand_read_failure_shows_nothing() {
    let mut o = overlay();
    o.on_note_clicked(2);
    assert_eq!(o.expanded_note.as_deref(), Some("b"));
    let _ = o.next_command();
    let _ = o.resume(Response::Read(Err("missing".to_string())));
    assert!(o.expanded_tasks.is_empty());
    assert!(o.expanded_content_lines.is_empty());
}

#[test]
fn click_out_of_range_only_fits() {
    let mut o = overlay();
    o.on_note_clicked(17);
    assert!(o.expanded_note.is_none());
    assert!(finish(o.next_command()) == WindowTask::Resize(428, 282));
}

#[test]
fn edit_task_line_flow() {
    let mut o = overlay();
    o.on_note_clicked(0);
    let _ = o.next_command();
    let _ = o.resume(Response::Read(Ok("- [ ] t\ntext".to_string())));
    o.on_line_edit_started(0, true, false);
    match o.next_command() {
        Command::ReadNote { filename } => assert_eq!(filename, "c.md"),
        _ => panic!("expected a read"),
    }
    assert!(finish(o.resume(Response::Read(Ok("- [ ] t\ntext".to_string())))) == WindowTask::Nothing);
    assert_eq!(o.editing_line.as_ref().map(|e| e.value.clone()), Some("t".to_string()));
    o.on_line_edit_changed("  nuevo  ".to_string());
    o.on_line_edit_submitted();
    assert!(o.editing_line.is_none());
    match o.next_command() {
        Command::ReplaceLine { filename, line_index, text } => {
            assert_eq!(filename, "c.md");
            assert_eq!(line_index, 0);
            assert_eq!(text, "- [ ] nuevo");
        }
        _ => panic!("expected the line to be written"),
    }
    match o.resume(Response::Done) {
        Command::ReadNote { filename } => assert_eq!(filename, "c.md"),
        _ => panic!("expected a reread"),
    }
    match o.resume(Response::Read(Ok("- [ ] nuevo\ntext".to_string()))) {
        Command::LoadNotes => {}
        _ => panic!("expected a rescan"),
    }
    assert_eq!(o.expanded_tasks[0].text, "nuevo");
}

#[test]
fn edit_value_beyond_last_line_is_empty() {
    let mut o = overlay();
    o.on_note_clicked(0);
    let _ = o.next_command();
    let _ = o.resume(Response::Read(Ok("one".to_string())));
    o.on_line_edit_started(3, false, false);
    let _ = o.next_command();
    let _ = o.resume(Response::Read(Ok("one".to_string())));
    assert_eq!(o.editing_line.as_ref().map(|e| e.value.clone()), Some(String::new()));
}

#[test]
fn edit_without_expanded_note() {
    let mut o = overlay();
    o.on_line_edit_started(1, false, false);
    assert!(finish(o.next_command()) == WindowTask::Nothing);
    assert_eq!(o.editing_line.as_ref().map(|e| (e.line_index, e.value.clone())), Some((1, String::new())));
    o.on_line_edit_submitted();
    assert!(o.editing_line.is_none());
    assert!(finish(o.next_command()) == WindowTask::Nothing);
}

#[test]
fn toggle_task_flow() {
    let mut o = overlay();
    o.on_task_toggled(1);
    assert!(finish(o.next_command()) == WindowTask::Nothing);
    o.on_note_clicked(1);
    let _ = o.next_command();
    let _ = o.resume(Response::Read(Ok(String::new())));
    o.on_task_toggled(1);
    match o.next_command() {
        Command::ToggleTask { filename, line_index } => {
            assert_eq!(filename, "inbox-s.md");
            assert_eq!(line_index, 1);
        }
        _ => panic!("expected a toggle"),
    }
}

#[test]
fn escape_order() {
    let mut o = overlay();
    o.on_note_clicked(0);
    let _ = o.next_command();
    let _ = o.resume(Response::Read(Ok("x".to_string())));
    o.on_note_ctx_clicked(1);
    assert_eq!(o.ctx_menu.as_ref().map(|c| c.note_name.clone()), Some("inbox-s".to_string()));
    o.on_line_edit_started(0, false, false);
    let _ = o.next_command();
    let _ = o.resume(Response::Read(Ok("x".to_string())));
    o.on_escape();
    assert!(o.editing_line.is_none());
    assert!(o.ctx_menu.is_some());
    o.on_escape();
    assert!(o.ctx_menu.is_none());
    assert!(o.expanded_note.is_some());
    o.on_escape();
    assert!(o.expanded_note.is_none());
    assert!(finish(o.next_command()) == WindowTask::Resize(428, 282));
    o.on_new_note_clicked();
    o.on_input_changed("t".to_string());
    o.on_escape();
    assert!(o.mode == OverlayMode::Normal);
    assert_eq!(o.input_value, "");
    o.selected_file = "c.md".to_string();
    o.status_msg = "s".to_string();
    o.on_input_changed("y".to_string());
    o.on_escape();
    assert_eq!(o.selected_file, "inbox-s.md");
    assert_eq!(o.status_msg, "");
    assert_eq!(o.input_value, "");
}

#[test]
fn pin_twice_restores() {
    let mut o = overlay();
    o.on_ctx_pin("a".to_string());
    assert!(o.pinned.contains(&"a".to_string()));
    match o.next_command() {
        Command::SavePanel => {}
        _ => panic!("expected a save"),
    }
    o.on_ctx_pin("a".to_string());
    assert_eq!(o.pinned, vec!["c".to_string()]);
    o.on_ctx_pin("c".to_string());
    assert!(o.pinned.is_empty());
}

#[test]
fn hide_and_delete() {
    let mut o = overlay();
    o.on_ctx_hide("a".to_string());
    let names: Vec<&str> = o.sorted_visible_notes().iter().map(|n| n.name.as_str()).collect();
    assert_eq!(names, vec!["c", "inbox-s", "b"]);
    o.on_note_clicked(0);
    let _ = o.next_command();
    let _ = o.resume(Response::Read(Ok(String::new())));
    o.on_ctx_delete("c".to_string());
    assert_eq!(o.ctx_menu.as_ref().map(|c| c.confirming_delete), Some(true));
    o.on_ctx_confirm_delete("c".to_string());
    assert!(o.ctx_menu.is_none());
    assert!(o.expanded_note.is_none());
    assert_eq!(o.selected_file, "inbox-s.md");
    assert!(o.pinned.is_empty());
    match o.next_command() {
        Command::DeleteNoteFile { filename } => assert_eq!(filename, "c.md"),
        _ => panic!("expected a delete"),
    }
    match o.resume(Response::Done) {
        Command::SavePanel => {}
        _ => panic!("expected a save"),
    }
    match o.resume(Response::Done) {
        Command::LoadNotes => {}
        _ => panic!("expected a rescan"),
    }
}

#[test]
fn resize_from_top_and_sides() {
    let mut o = overlay();
    o.on_resize_started(ResizeEdge::N);
    assert!(o.drag_fits((0, -50), (0, 0)));
    o.on_drag_moved((0, -50), (0, 0));
    assert_eq!(o.window_size, (428, 330));
    assert_eq!(o.margin, (0, 0, 0, 0));
    assert!(finish(o.next_command()) == WindowTask::ResizeAndMove(428, 330, 0, 0, 0, 0));
    o.on_drag_moved((0, 50), (0, 0));
    assert_eq!(o.window_size, (428, 230));
    assert_eq!(o.margin, (50, 0, 0, 0));
    o.on_drag_ended();
    assert!(o.resizing.is_none());
    match o.next_command() {
        Command::SavePanel => {}
        _ => panic!("expected a save"),
    }
    o.on_resize_started(ResizeEdge::E);
    o.on_drag_moved((100, 0), (0, 0));
    assert_eq!(o.window_size, (528, 230));
    assert_eq!(o.margin, (50, 100, 0, 0));
    o.on_resize_started(ResizeEdge::SW);
    o.on_drag_moved((-1000, 1000), (0, 0));
    assert_eq!(o.window_size, (800, 600));
    assert_eq!(o.margin, (50, 372, 0, 0));
    o.on_resize_ended();
    assert!(o.resizing.is_none());
}

#[test]
fn drag_moves_window() {
    let mut o = overlay();
    o.on_drag_moved((5, 5), (3, 3));
    assert_eq!(o.margin, (0, 0, 0, 0));
    assert!(finish(o.next_command()) == WindowTask::Nothing);
    o.on_drag_started();
    o.on_drag_moved((0, 0), (10, 20));
    assert_eq!(o.margin, (20, 0, 0, 0));
    assert!(finish(o.next_command()) == WindowTask::Move(20, 0, 0, 0));
    o.on_drag_moved((0, 0), (-30, -50));
    assert_eq!(o.margin, (0, 30, 0, 0));
    assert!(!o.drag_fits((0, 0), (i32::MIN, 0)) || o.margin.1 == 0);
    o.on_drag_ended();
    assert!(!o.dragging);
    assert!(finish(o.next_command()) == WindowTask::Nothing);
}

#[test]
fn drag_overflow_detected() {
    let mut o = overlay();
    o.on_drag_started();
    o.on_drag_moved((0, 0), (0, 2_000_000_000));
    assert!(!o.drag_fits((0, 0), (0, 2_000_000_000)));
}

#[test]
fn simple_actions() {
    let mut o = overlay();
    o.on_tui_clicked();
    assert!(matches!(o.next_command(), Command::OpenCanvas));
    o.on_tui_for_note("b".to_string());
    match o.next_command() {
        Command::OpenCanvasWith { filename } => assert_eq!(filename, "b.md"),
        _ => panic!("expected the canvas"),
    }
    o.on_ctx_view_tui("a".to_string());
    match o.next_command() {
        Command::OpenCanvasWith { filename } => assert_eq!(filename, "a.md"),
        _ => panic!("expected the canvas"),
    }
    o.on_close_clicked();
    assert!(matches!(o.next_command(), Command::Exit));
    o.on_drag_hover(true);
    assert!(o.drag_hovered);
    o.on_note_ctx_clicked(0);
    o.on_ctx_cancel();
    assert!(o.ctx_menu.is_none());
    o.on_new_note_clicked();
    o.on_cancel_create();
    assert!(o.mode == OverlayMode::Normal);
    o.on_line_edit_started(2, false, false);
    let _ = o.next_command();
    o.on_line_edit_cancelled();
    assert!(o.editing_line.is_none());
}

#[test]
fn panel_path() {
    assert_eq!(panel_path_for(Some("/home/u")), "/home/u/.config/overlay/panel.json");
    assert_eq!(panel_path_for(None), "/tmp/.config/overlay/panel.json");
}

#[test]
fn relative_times() {
    assert_eq!(relative_time_at(100, 130), "ahora");
    assert_eq!(relative_time_at(500, 100), "ahora");
    assert_eq!(relative_time_at(0, 60), "hace 1m");
    assert_eq!(relative_time_at(0, 3599), "hace 59m");
    assert_eq!(relative_time_at(0, 3600), "hace 1h");
    assert_eq!(relative_time_at(0, 86399), "hace 23h");
    assert_eq!(relative_time_at(0, 86400), "ayer");
    assert_eq!(relative_time_at(0, 172799), "ayer");
    assert_eq!(relative_time_at(0, 172800), "hace 2d");
    assert_eq!(relative_time_at(0, 8640000), "hace 100d");
}

#[test]
fn relative_time_from_clock() {
    let t = relative_time(0);
    assert!(t.starts_with("hace ") && t.ends_with('d'));
}

fn stamp() -> Stamp {
    Stamp { year: 2024, month: 3, day: 5, hour: 14, minute: 7 }
}

#[test]
fn note_names_with_dates() {
    let name = "inbox-2024-03-05-14h07.md";
    let today = Day { year: 2024, month: 3, day: 5 };
    assert_eq!(format_note_name_with(name, Some(stamp()), &today, None), "\u{1F4E5} hoy 14h07");
    let tomorrow = Day { year: 2024, month: 3, day: 6 };
    assert_eq!(
        format_note_name_with(name, Some(stamp()), &tomorrow, Some(Day { year: 2024, month: 3, day: 5 })),
        "\u{1F4E5} ayer 14h07"
    );
    let later = Day { year: 2025, month: 1, day: 1 };
    assert_eq!(
        format_note_name_with(name, Some(stamp()), &later, Some(Day { year: 2024, month: 12, day: 31 })),
        "\u{1F4E5} 05/03 14h07"
    );
}

#[test]
fn note_names_plain_and_cut() {
    let today = Day { year: 2024, month: 3, day: 5 };
    assert_eq!(format_note_name_with("ideas", None, &today, None), "ideas");
    assert_eq!(format_note_name_with("abcdefghijklmnopqrst", None, &today, None), "abcdefghijklmnopqrst");
    assert_eq!(
        format_note_name_with("abcdefghijklmnopqrstuvwxyz", None, &today, None),
        "abcdefghijklmnopqrs\u{2026}"
    );
    let accented = format!("\u{e1}{}", "a".repeat(20));
    assert_eq!(
        format_note_name_with(&accented, None, &today, None),
        format!("\u{e1}{}\u{2026}", "a".repeat(17))
    );
    assert_eq!(format_note_name_with("inbox-x", None, &today, None), "inbox-x");
}

#[test]
fn note_names_from_clock() {
    assert_eq!(format_note_name("inbox-2020-03-05-14h07.md"), "\u{1F4E5} 05/03 14h07");
    assert_eq!(format_note_name("inbox-2020-03-05-14h07.md.md"), "\u{1F4E5} 05/03 14h07");
    assert_eq!(format_note_name("inbox-notadate"), "inbox-notadate");
    assert_eq!(format_note_name("tareas"), "tareas");
}

#[test]
fn note_names_today_and_yesterday() {
    let today = chrono::Local::now().date_naive();
    let yesterday = today.pred_opt().unwrap();
    let name_today = format!("inbox-{}-10h05.md", today.format("%Y-%m-%d"));
    let name_yesterday = format!("inbox-{}-23h59.md", yesterday.format("%Y-%m-%d"));
    let got_today = format_note_name(&name_today);
    let got_yesterday = format_note_name(&name_yesterday);
    let now = chrono::Local::now().date_naive();
    if now == today {
        assert_eq!(got_today, "\u{1F4E5} hoy 10h05");
        assert_eq!(got_yesterday, "\u{1F4E5} ayer 23h59");
    }
}

#[test]
fn session_file_names() {
    assert_eq!(session_file_name_for("2024-03-05-14h07"), "inbox-2024-03-05-14h07.md");
}

#[test]
fn dashed_titles() {
    assert_eq!(dashed_title("a b/c"), "a-b-c");
}

#[test]
fn session_file_shape() {
    let s = session_file_name();
    assert!(s.starts_with("inbox-"));
    assert!(s.ends_with(".md"));
    assert_eq!(s.len(), 25);
    let stem = &s[6..s.len() - 3];
    assert!(chrono::NaiveDateTime::parse_from_str(stem, "%Y-%m-%d-%Hh%M").is_ok());
}

#[test]
fn row_texts() {
    let mut n = note("a", 0);
    n.task_count = 5;
    n.tasks_done = 2;
    assert_eq!(note_sub_text_at(&n, 1000), "\u{2713} 2/5");
    let m = note("b", 1000);
    assert_eq!(note_sub_text_at(&m, 1000 + 7200), "hace 2h");
    assert_eq!(without_md(&"a.md.md".to_string()), "a");
    assert_eq!(without_md(&"x.mdy".to_string()), "xy");
}

#[test]
fn row_marks_and_labels() {
    let mut o = overlay();
    let marks = o.row_marks(&"inbox-s".to_string());
    assert!(marks.session && marks.selected && !marks.pinned && !marks.expanded);
    assert!(o.row_marks(&"c".to_string()).pinned);
    assert_eq!(o.destination_label(), Some(("inbox-s".to_string(), false)));
    o.on_note_clicked(3);
    assert_eq!(o.destination_label(), Some(("\u{2192} a".to_string(), true)));
    let _ = o.next_command();
    let _ = o.resume(Response::Read(Ok("- [x] a\n- [ ] b\n- [ ] c\n1\n2\n3\n4\n5\n6".to_string())));
    assert_eq!(o.panel_footer(), "2 pend \u{b7} 1 completadas");
    assert_eq!(o.more_lines_label(), Some("  \u{b7}\u{b7}\u{b7} 2 l\u{ed}neas m\u{e1}s".to_string()));
    o.on_new_note_clicked();
    assert_eq!(o.destination_label(), None);
}

#[test]
fn unchanged_task_edit_writes_the_same_line() {
    let mut o = overlay();
    o.on_note_clicked(0);
    let _ = o.next_command();
    let content = "- [x] foo\n- [ ] bar";
    let _ = o.resume(Response::Read(Ok(content.to_string())));
    o.on_line_edit_started(1, true, false);
    let _ = o.next_command();
    let _ = o.resume(Response::Read(Ok(content.to_string())));
    assert_eq!(o.editing_line.as_ref().map(|e| e.value.clone()), Some("bar".to_string()));
    o.on_line_edit_submitted();
    match o.next_command() {
        Command::ReplaceLine { line_index, text, .. } => {
            assert_eq!(line_index, 1);
            assert_eq!(text, "- [ ] bar");
            assert_eq!(overlay_core::replace_line_text(content, line_index, &text), content);
        }
        _ => panic!("expected the line to be written"),
    }
}
