use moxide::directories::{parse_directory_config, trim_str, Directories, ParseDirectoryError};
use moxide::projects::{find_project, resolve_windows, LookupError, Project, ProjectSetup};
use moxide::templates::{Template, Window};
use moxide::widgets::table::Table;
use moxide::cli::{Cli, Commands, ProjectCommands, ProjectStartArgs};

fn win(name: &str, panes: &[&str]) -> Window {
    Window {
        name: Some(name.to_string()),
        layout: None,
        panes: panes.iter().map(|s| s.to_string()).collect(),
    }
}

#[test]
fn directories_parse_names_and_paths() {
    let content = "# comment line\nwork: /home/u/work\n/home/u/play\n";
    let dirs = parse_directory_config(content).unwrap();
    assert_eq!(dirs.get("work").unwrap(), "/home/u/work");
    assert_eq!(dirs.get("play").unwrap(), "/home/u/play");
    assert!(dirs.get("other").is_none());
    let names = dirs.names();
    assert_eq!(names, vec!["work".to_string(), "play".to_string()]);
}

#[test]
fn directories_trim_whitespace() {
    let content = "  work  :   /w  \n";
    let dirs = parse_directory_config(content).unwrap();
    assert_eq!(dirs.get("work").unwrap(), "/w");
    assert_eq!(trim_str("  a b\t"), "a b");
    assert_eq!(trim_str("   "), "");
}

#[test]
fn duplicate_directory_name_is_rejected() {
    let content = "n: /one\nn: /two\n";
    match parse_directory_config(content) {
        Err(ParseDirectoryError::DuplicateName { name, values }) => {
            assert_eq!(name, "n");
            assert_eq!(values.0, "/one");
            assert_eq!(values.1, "/two");
        }
        _ => panic!("expected a duplicate-name error"),
    }
}

#[test]
fn directory_without_a_name_is_rejected() {
    match parse_directory_config("/\n") {
        Err(ParseDirectoryError::NoDirName { dir }) => assert_eq!(dir, "/"),
        _ => panic!("expected a no-name error"),
    }
}

#[test]
fn empty_directory_config_is_fine() {
    let dirs = parse_directory_config("").unwrap();
    assert!(dirs.entries.is_empty());
    let dirs: Directories = parse_directory_config("# only comments\n").unwrap();
    assert!(dirs.entries.is_empty());
}

#[test]
fn inline_windows_resolve_to_themselves() {
    let setup = ProjectSetup::Windows(vec![win("a", &["x"])]);
    let templates: Vec<Template> = Vec::new();
    let ws = resolve_windows(&setup, &templates).unwrap();
    assert_eq!(ws.len(), 1);
    assert_eq!(ws[0].name.as_deref(), Some("a"));
}

#[test]
fn template_references_resolve_by_name() {
    let templates = vec![
        Template { name: "web".to_string(), hidden: None, windows: vec![win("w", &["serve"])] },
        Template { name: "web".to_string(), hidden: Some(true), windows: Vec::new() },
    ];
    let setup = ProjectSetup::Template("web".to_string());
    let ws = resolve_windows(&setup, &templates).unwrap();
    // the first template of that name wins
    assert_eq!(ws.len(), 1);
    assert_eq!(ws[0].panes, vec!["serve".to_string()]);
}

#[test]
fn missing_template_is_fatal() {
    let setup = ProjectSetup::Template("gone".to_string());
    let templates: Vec<Template> = Vec::new();
    match resolve_windows(&setup, &templates) {
        Err(LookupError::TemplateNotFound(n)) => assert_eq!(n, "gone"),
        _ => panic!("expected a template-not-found error"),
    }
}

#[test]
fn projects_are_found_by_name() {
    let projects = vec![
        Project {
            name: "one".to_string(),
            root_dir: "/1".to_string(),
            setup: ProjectSetup::Windows(Vec::new()),
        },
        Project {
            name: "two".to_string(),
            root_dir: "/2".to_string(),
            setup: ProjectSetup::Template("t".to_string()),
        },
    ];
    assert_eq!(find_project(&projects, "two").unwrap().root_dir, "/2");
    assert!(find_project(&projects, "three").is_none());
}

#[test]
fn tables_extend_in_order() {
    let mut t = Table::new(vec![("k".to_string(), "v".to_string())]);
    let u = Table::new(vec![("k2".to_string(), "v2".to_string())]);
    t.extend_table(u);
    assert_eq!(t.rows.len(), 2);
    assert_eq!(t.rows[1].0, "k2");
    let mut e: Table<String, String> = Table::new(Vec::new());
    e.extend(vec![("a".to_string(), "b".to_string())]);
    assert_eq!(e.rows.len(), 1);
}

#[test]
fn cli_values_carry_their_fields() {
    let cli = Cli {
        cmd: Commands::Project(ProjectCommands::Start(ProjectStartArgs {
            name: "p".to_string(),
            detached: true,
            always_new_session: false,
        })),
    };
    match cli.cmd {
        Commands::Project(ProjectCommands::Start(args)) => {
            assert_eq!(args.name, "p");
            assert!(args.detached);
            assert!(!args.always_new_session);
        }
        _ => panic!("unexpected command"),
    }
}
