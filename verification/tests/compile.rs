use moxide::templates::{apply_windows, build_tmux_command, Window};
use moxide::tmux::TmuxPrimitive;
use moxide::session::{attach_batch, new_session_batch, start_directory, start_project};

fn win(name: Option<&str>, layout: Option<&str>, panes: &[&str]) -> Window {
    Window {
        name: name.map(|s| s.to_string()),
        layout: layout.map(|s| s.to_string()),
        panes: panes.iter().map(|s| s.to_string()).collect(),
    }
}

fn count_new_windows(batch: &[TmuxPrimitive]) -> usize {
    batch.iter().filter(|p| matches!(p, TmuxPrimitive::NewWindow { .. })).count()
}

fn count_splits(batch: &[TmuxPrimitive]) -> usize {
    batch.iter().filter(|p| matches!(p, TmuxPrimitive::SplitWindow { .. })).count()
}

#[test]
fn first_window_is_reused() {
    let windows = vec![win(Some("edit"), None, &["vim"])];
    let batch = apply_windows(&windows, &None);
    assert_eq!(count_new_windows(&batch), 0);
    assert!(matches!(&batch[0], TmuxPrimitive::RenameWindow { name } if name == "edit"));
}

#[test]
fn later_windows_are_created() {
    let windows = vec![
        win(None, None, &[""]),
        win(Some("logs"), None, &["tail -f log"]),
        win(None, None, &["htop"]),
    ];
    let batch = apply_windows(&windows, &None);
    assert_eq!(count_new_windows(&batch), 2);
    // the first window, unnamed, contributes no identity command at all
    assert!(matches!(&batch[0], TmuxPrimitive::NewWindow { name: Some(n), start_directory: None } if n == "logs"));
}

#[test]
fn first_pane_is_reused_later_panes_split() {
    let windows = vec![win(None, None, &["a", "b", "c"])];
    let batch = apply_windows(&windows, &None);
    assert_eq!(count_splits(&batch), 2);
    // pane order: send a, split, send b, split, send c
    assert!(matches!(&batch[0], TmuxPrimitive::SendKeys { text } if text == "a"));
    assert!(matches!(&batch[1], TmuxPrimitive::SplitWindow { .. }));
    assert!(matches!(&batch[2], TmuxPrimitive::SendKeys { text } if text == "b"));
    assert!(matches!(&batch[3], TmuxPrimitive::SplitWindow { .. }));
    assert!(matches!(&batch[4], TmuxPrimitive::SendKeys { text } if text == "c"));
    assert_eq!(batch.len(), 5);
}

#[test]
fn empty_pane_command_types_nothing() {
    let windows = vec![win(None, None, &["", "work"])];
    let batch = apply_windows(&windows, &None);
    assert!(matches!(&batch[0], TmuxPrimitive::SplitWindow { .. }));
    assert!(matches!(&batch[1], TmuxPrimitive::SendKeys { text } if text == "work"));
    assert_eq!(batch.len(), 2);
}

#[test]
fn layout_is_applied_after_panes() {
    let windows = vec![win(Some("w"), Some("main-vertical"), &["a", "b"])];
    let batch = apply_windows(&windows, &None);
    let last = batch.last().unwrap();
    assert!(matches!(last, TmuxPrimitive::SelectLayout { layout: Some(l) } if l == "main-vertical"));
}

#[test]
fn override_directory_reaches_windows_and_panes() {
    let dir = Some("/work/proj".to_string());
    let windows = vec![win(None, None, &["a"]), win(None, None, &["b", "c"])];
    let batch = apply_windows(&windows, &dir);
    let mut seen_new_window_dir = false;
    let mut seen_split_dir = false;
    for p in &batch {
        match p {
            TmuxPrimitive::NewWindow { start_directory: Some(d), .. } if d == "/work/proj" => {
                seen_new_window_dir = true;
            }
            TmuxPrimitive::SplitWindow { start_directory: Some(d) } if d == "/work/proj" => {
                seen_split_dir = true;
            }
            _ => {}
        }
    }
    assert!(seen_new_window_dir);
    assert!(seen_split_dir);
}

#[test]
fn empty_window_list_compiles_to_nothing() {
    let windows: Vec<Window> = Vec::new();
    let batch = apply_windows(&windows, &None);
    assert!(batch.is_empty());
}

#[test]
fn build_tmux_command_cases() {
    let w = win(Some("n"), None, &[]);
    assert!(matches!(
        build_tmux_command(0, &w, &None),
        Some(TmuxPrimitive::RenameWindow { name }) if name == "n"
    ));
    let unnamed = win(None, None, &[]);
    assert!(build_tmux_command(0, &unnamed, &None).is_none());
    assert!(matches!(
        build_tmux_command(3, &unnamed, &Some("/d".to_string())),
        Some(TmuxPrimitive::NewWindow { name: None, start_directory: Some(d) }) if d == "/d"
    ));
}

#[test]
fn attach_batch_respects_detached() {
    assert!(attach_batch("s", true, false).is_empty());
    let inside = attach_batch("s", false, true);
    assert!(matches!(&inside[0], TmuxPrimitive::SwitchClient { name } if name == "s"));
    let outside = attach_batch("s", false, false);
    assert!(matches!(&outside[0], TmuxPrimitive::AttachSession { name } if name == "s"));
}

#[test]
fn new_session_batch_orders_create_windows_attach() {
    let windows = vec![win(Some("w"), None, &["cmd"])];
    let dir = Some("/p".to_string());
    let batch = new_session_batch(&windows, "sess", &dir, false, false);
    assert!(matches!(
        &batch[0],
        TmuxPrimitive::NewSession { name, start_directory: Some(d), detached: true }
            if name == "sess" && d == "/p"
    ));
    assert!(matches!(&batch[1], TmuxPrimitive::RenameWindow { name } if name == "w"));
    assert!(matches!(&batch[2], TmuxPrimitive::SendKeys { text } if text == "cmd"));
    // the attach comes last, after the whole batch
    assert!(matches!(&batch[3], TmuxPrimitive::AttachSession { name } if name == "sess"));
}

#[test]
fn start_project_attaches_to_live_session() {
    let windows = vec![win(None, None, &["x"])];
    let used: Vec<String> = vec!["proj".to_string()];
    let batch = start_project(&windows, "proj", "/p", true, false, false, false, &used);
    assert_eq!(batch.len(), 1);
    assert!(matches!(&batch[0], TmuxPrimitive::AttachSession { name } if name == "proj"));
}

#[test]
fn start_project_creates_under_free_name() {
    let windows = vec![win(None, None, &["x"])];
    let used: Vec<String> = vec!["proj".to_string()];
    let batch = start_project(&windows, "proj", "/p", true, true, true, false, &used);
    assert!(matches!(
        &batch[0],
        TmuxPrimitive::NewSession { name, start_directory: Some(d), detached: true }
            if name == "proj(1)" && d == "/p"
    ));
    // detached: no attach command follows the new-session command
    assert!(matches!(&batch[1], TmuxPrimitive::SendKeys { .. }));
}

#[test]
fn start_directory_reuses_live_session() {
    let batch = start_directory("dir", "/d", true, false, false, true);
    assert_eq!(batch.len(), 1);
    assert!(matches!(&batch[0], TmuxPrimitive::SwitchClient { name } if name == "dir"));
}

#[test]
fn start_directory_creates_when_absent() {
    let batch = start_directory("dir", "/d", false, false, false, false);
    assert!(matches!(
        &batch[0],
        TmuxPrimitive::NewSession { name, start_directory: Some(d), detached: true }
            if name == "dir" && d == "/d"
    ));
    assert!(matches!(&batch[1], TmuxPrimitive::AttachSession { name } if name == "dir"));
}
