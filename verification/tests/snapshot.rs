use moxide::freeze::{
    current_windows, freeze_file_name, freeze_project, most_used_path, parse_line,
    ActiveTmuxInstance, ActiveWindow, TmuxParseError,
};
use moxide::projects::ProjectSetup;
use moxide::templates::apply_windows;
use moxide::tmux::TmuxPrimitive;

fn aw(index: usize, session: &str, name: &str, layout: &str, panes: &[&str]) -> ActiveWindow {
    ActiveWindow {
        index,
        session_name: session.to_string(),
        name: name.to_string(),
        layout: layout.to_string(),
        panes: panes.iter().map(|s| s.to_string()).collect(),
    }
}

#[test]
fn parse_window_line() {
    let r = parse_line("window:\tedit\ttiled\t3\tmain").unwrap();
    assert!(matches!(
        r,
        ActiveTmuxInstance::Window { name, layout, index: 3, session_name }
            if name == "edit" && layout == "tiled" && session_name == "main"
    ));
}

#[test]
fn parse_pane_line() {
    let r = parse_line("pane:\t2\t/work/proj\tmain").unwrap();
    assert!(matches!(
        r,
        ActiveTmuxInstance::Pane { window_index: 2, cwd, session_name }
            if cwd == "/work/proj" && session_name == "main"
    ));
}

#[test]
fn parse_line_errors() {
    assert!(matches!(
        parse_line("bogus:\tx"),
        Err(TmuxParseError::UndefinedPrefix(p)) if p == "bogus:"
    ));
    assert!(matches!(parse_line(""), Err(TmuxParseError::UndefinedPrefix(p)) if p.is_empty()));
    assert!(matches!(parse_line("window:"), Err(TmuxParseError::MissingData(0))));
    assert!(matches!(parse_line("window:\tn"), Err(TmuxParseError::MissingData(1))));
    assert!(matches!(parse_line("window:\tn\tl"), Err(TmuxParseError::MissingData(2))));
    assert!(matches!(
        parse_line("window:\tn\tl\tseven"),
        Err(TmuxParseError::NoNumber(s)) if s == "seven"
    ));
    assert!(matches!(parse_line("window:\tn\tl\t7"), Err(TmuxParseError::MissingData(3))));
    assert!(matches!(parse_line("pane:"), Err(TmuxParseError::MissingData(0))));
    assert!(matches!(
        parse_line("pane:\tx\t/d\ts"),
        Err(TmuxParseError::NoNumber(s)) if s == "x"
    ));
    assert!(matches!(parse_line("pane:\t1"), Err(TmuxParseError::MissingData(2))));
    assert!(matches!(parse_line("pane:\t1\t/d"), Err(TmuxParseError::MissingData(3))));
}

#[test]
fn error_messages() {
    assert_eq!(
        TmuxParseError::UndefinedPrefix("x:".to_string()).message(),
        "The prefix x: isn't defined"
    );
    assert_eq!(TmuxParseError::MissingData(0).message(), "The first entry is missing");
    assert_eq!(TmuxParseError::MissingData(1).message(), "The second entry is missing");
    assert_eq!(TmuxParseError::MissingData(3).message(), "The 4th entry is missing");
    assert_eq!(TmuxParseError::NoNumber("abc".to_string()).message(), "abc isn't a number");
    assert_eq!(TmuxParseError::NoPrefix.message(), "");
}

#[test]
fn malformed_line_is_dropped_but_good_lines_survive() {
    let output = "window:\ta\tl1\t0\ts\npane:\tnope\t/d\ts\nwindow:\tb\tl2\t1\ts\n";
    let (windows, errors) = current_windows(output);
    assert_eq!(windows.len(), 2);
    assert_eq!(windows[0].name, "a");
    assert_eq!(windows[1].name, "b");
    assert_eq!(errors.len(), 1);
    assert!(matches!(&errors[0], TmuxParseError::NoNumber(s) if s == "nope"));
}

#[test]
fn windows_group_panes_by_index_and_session() {
    let output = "window:\tw1\tl\t1\ts\nwindow:\tw0\tl\t0\ts\npane:\t1\t/one\ts\npane:\t0\t/zero\ts\npane:\t1\t/two\ts\npane:\t9\t/orphan\ts\npane:\t0\t/zero\tother\n";
    let (windows, errors) = current_windows(output);
    assert!(errors.is_empty());
    // ordered by (index, session); the orphan pane and the pane of an
    // unknown session are dropped
    assert_eq!(windows.len(), 2);
    assert_eq!(windows[0].name, "w0");
    assert_eq!(windows[0].panes, vec!["/zero"]);
    assert_eq!(windows[1].name, "w1");
    assert_eq!(windows[1].panes, vec!["/one", "/two"]);
}

#[test]
fn duplicate_window_records_keep_the_first() {
    let output = "window:\tfirst\tl\t0\ts\nwindow:\tsecond\tl\t0\ts\n";
    let (windows, _) = current_windows(output);
    assert_eq!(windows.len(), 1);
    assert_eq!(windows[0].name, "first");
}

#[test]
fn most_used_path_prefers_frequency() {
    let windows = vec![aw(0, "s", "w", "l", &["/a", "/a", "/b"])];
    assert_eq!(most_used_path(&windows).unwrap(), "/a");
}

#[test]
fn most_used_path_breaks_ties_by_first_encounter() {
    let windows = vec![aw(0, "s", "w", "l", &["/b", "/a", "/a", "/b"])];
    assert_eq!(most_used_path(&windows).unwrap(), "/b");
    assert!(most_used_path(&Vec::new()).is_none());
}

#[test]
fn frozen_panes_are_cd_commands_or_empty() {
    let w = aw(0, "s", "w", "tiled", &["/root", "/else"]);
    let t = w.to_template_window("/root");
    assert_eq!(t.name.as_deref(), Some("w"));
    assert_eq!(t.layout.as_deref(), Some("tiled"));
    assert_eq!(t.panes, vec!["".to_string(), "cd \"/else\"".to_string()]);
}

#[test]
fn escaped_path_stays_one_token() {
    let w = aw(0, "s", "w", "l", &["/odd\"dir\\name"]);
    let t = w.to_template_window("/other");
    assert_eq!(t.panes, vec!["cd \"/odd\\\"dir\\\\name\"".to_string()]);
}

#[test]
fn freeze_project_names_fall_back() {
    let windows = vec![aw(0, "s", "w", "l", &["/work/proj"])];
    let p = freeze_project(&windows, Some("given".to_string()), "/work/proj");
    assert_eq!(p.name, "given");
    let p = freeze_project(&windows, None, "/work/proj");
    assert_eq!(p.name, "proj");
    assert_eq!(p.root_dir, "/work/proj");
    let p = freeze_project(&windows, None, "/");
    assert_eq!(p.name, "Unnamed Project");
}

#[test]
fn round_trip_reproduces_pane_commands() {
    // a synthetic live state: two windows, panes at and off the root
    let output = "window:\tw0\tl0\t0\ts\nwindow:\tw1\tl1\t1\ts\npane:\t0\t/root\ts\npane:\t0\t/sub\ts\npane:\t1\t/root\ts\n";
    let (windows, errors) = current_windows(output);
    assert!(errors.is_empty());
    let root = most_used_path(&windows).unwrap();
    assert_eq!(root, "/root");
    let project = freeze_project(&windows, None, &root);
    let frozen = match &project.setup {
        ProjectSetup::Windows(ws) => ws.clone(),
        ProjectSetup::Template(_) => panic!("freeze yields inline windows"),
    };
    assert_eq!(frozen[0].panes, vec!["".to_string(), "cd \"/sub\"".to_string()]);
    assert_eq!(frozen[1].panes, vec!["".to_string()]);
    // compiling the frozen windows types exactly the off-root cd commands
    let batch = apply_windows(&frozen, &None);
    let typed: Vec<String> = batch
        .iter()
        .filter_map(|p| match p {
            TmuxPrimitive::SendKeys { text } => Some(text.clone()),
            _ => None,
        })
        .collect();
    assert_eq!(typed, vec!["cd \"/sub\"".to_string()]);
    // and the pane slots match: one split for the second pane of window 0
    let splits = batch.iter().filter(|p| matches!(p, TmuxPrimitive::SplitWindow { .. })).count();
    assert_eq!(splits, 1);
}

#[test]
fn freeze_file_names() {
    assert_eq!(freeze_file_name("proj").unwrap(), "proj.yaml");
    assert_eq!(freeze_file_name("proj.yaml").unwrap(), "proj.yaml");
    assert_eq!(freeze_file_name("a/b").unwrap_err(), "File name can't contain /");
}
