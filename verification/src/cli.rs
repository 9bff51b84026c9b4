use vstd::prelude::*;

verus! {

// ---------------------------------------------------------------------------
// The requests a caller can hand to the library's handlers, as plain data.
// Parsing a command line into these values is the caller's concern.
// ---------------------------------------------------------------------------

/// A whole invocation: one command.
#[derive(Debug, Clone)]
pub struct Cli {
    pub cmd: Commands,
}

/// The commands of the tool.
#[derive(Debug, Clone)]
pub enum Commands {
    /// Initialize the configuration directories.
    Init,
    /// Work with sessions based on configured directories.
    Directory(DirectoryCli),
    /// Work with sessions based on stored templates.
    Template(TemplateCommands),
    /// Work with sessions based on stored projects.
    Project(ProjectCommands),
    /// List directories, templates and projects.
    List(ListCli),
    /// Save the current live session as a new project.
    Freeze { name: Option<String>, file_name: Option<String>, force: bool, stdout: bool },
}

/// The directory subcommand.
#[derive(Debug, Clone)]
pub struct DirectoryCli {
    pub action: DirectoryCommands,
}

#[derive(Debug, Clone)]
pub enum DirectoryCommands {
    List(ListDirectoryArgs),
    Start(StartDirectoryArgs),
}

#[derive(Debug, Clone)]
pub struct ListDirectoryArgs {
    /// Show minimal output for scripts.
    pub minimal: bool,
}

#[derive(Debug, Clone)]
pub struct ListArgs {
    /// Show minimal output for scripts.
    pub minimal: bool,
}

#[derive(Debug, Clone)]
pub struct StartDirectoryArgs {
    /// The directory to start the session in.
    pub directory: String,
    /// Start the session detached.
    pub detached: bool,
    /// The session's name; without one, the configured or derived name is
    /// used.
    pub name: Option<String>,
    /// Always start a new session instead of attaching to an existing one.
    pub always_new_session: bool,
}

#[derive(Debug, Clone)]
pub struct InitCli {
    pub config: bool,
    pub completion: bool,
}

#[derive(Debug, Clone)]
pub struct ListCli {
    pub format_project: Option<String>,
    pub format_template: Option<String>,
    pub format_directory: Option<String>,
    /// Only what belongs to a live session.
    pub running: bool,
    /// Include hidden templates.
    pub all: bool,
}

#[derive(Debug, Clone)]
pub enum ProjectCommands {
    List { minimal: bool },
    Start(ProjectStartArgs),
}

#[derive(Debug, Clone)]
pub struct ProjectStartArgs {
    /// The name of the project as the configuration defines it.
    pub name: String,
    /// Start the session detached.
    pub detached: bool,
    /// Always start a new session instead of attaching to an existing one.
    pub always_new_session: bool,
}

#[derive(Debug, Clone)]
pub enum TemplateCommands {
    List { minimal: bool, all: bool },
    Start(StartTemplateArgs),
}

#[derive(Debug, Clone)]
pub struct StartTemplateArgs {
    pub template_name: String,
    /// Start the session detached.
    pub detached: bool,
    /// The directory to start it in.
    pub directory: Option<String>,
    /// The session's name; without one, the directory's or the template's
    /// name is used.
    pub name: Option<String>,
    /// Always start a new session instead of attaching to an existing one.
    pub always_new_session: bool,
}

} // verus!
