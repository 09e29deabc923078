//! The command tree of the project's command-line tool. Parsing and running
//! the commands is left to the application; this module holds the commands
//! themselves and the decisions made on them.

use vstd::prelude::*;

verus! {

/// The command line: an optional subcommand.
#[derive(Clone, Debug)]
pub struct Cli {
    pub command: Option<Command>,
}

/// A shell to generate completions for.
#[derive(Clone, Copy, Debug, PartialEq, Eq)]
pub enum CompletionShell {
    Bash,
    Elvish,
    Fish,
    PowerShell,
    Zsh,
}

#[derive(Clone, Debug)]
#[allow(inconsistent_fields)]
pub enum Command {
    /// Type & borrow check
    Check,
    /// Full WASM build pipeline
    Build {
        /// Native-only build (skip WASM)
        native: bool,
    },
    /// Run tests with streaming output
    Test {
        /// Test name filter
        filter: Option<String>,
        /// Run in release mode
        release: bool,
    },
    /// Build + serve via HTTP
    Serve {
        /// Skip build, serve existing artifacts
        no_build: bool,
        /// Port number (1-65535)
        port: u16,
    },
    /// Watch src/ and auto-check on changes
    Dev {
        /// Run cargo test instead of cargo check
        test: bool,
    },
    /// Clean build artifacts
    Clean,
    /// Run experiments
    Experiment { action: ExperimentCommand },
    /// View and compare results
    Results { action: ResultsCommand },
    /// Topology information
    Topology { action: TopologyCommand },
    /// Solver information
    Solver { action: SolverCommand },
    /// View configuration constants
    Config { action: ConfigCommand },
    /// Project health check
    Status,
    /// Version info
    Version,
    /// Open documentation
    Docs {
        /// Topic to open
        topic: Option<String>,
    },
    /// Lines of code per module
    Count,
    /// Run clippy lints
    Lint,
    /// Display ASCII art logo
    Logo,
    /// Clear the terminal
    Clear,
    /// Matrix rain animation
    Rain,
    /// Random MAPF fact or tip
    Fortune,
    /// Show project structure
    Tree,
    /// Generate shell completions
    Completions {
        /// Shell to generate for
        shell: CompletionShell,
    },
}

#[derive(Clone, Debug)]
pub enum ExperimentCommand {
    /// List all experiment presets
    List,
    /// Run a specific experiment
    Run {
        /// Experiment name
        name: String,
    },
    /// Quick smoke test
    Smoke,
    /// Run all paper experiments
    RunAll,
}

#[derive(Clone, Debug)]
pub enum ResultsCommand {
    /// List result files
    List,
    /// Pretty-print a CSV file
    Show {
        /// File name (from results/)
        file: String,
        /// Max rows to display (0 = unlimited)
        limit: usize,
        /// Columns to show
        columns: Option<Vec<String>>,
        /// Filter rows (key=value)
        filter: Option<String>,
    },
    /// Aggregate summary stats
    Summary,
    /// Side-by-side comparison
    Compare {
        /// First file
        a: String,
        /// Second file
        b: String,
    },
    /// Remove all results (with confirmation)
    Clean,
    /// Open results directory
    Open,
}

#[derive(Clone, Debug)]
pub enum TopologyCommand {
    /// List available topologies
    List,
    /// Detailed topology info
    Info {
        /// Topology name
        name: String,
    },
    /// ASCII art grid preview
    Preview {
        /// Topology name
        name: String,
    },
    /// Open map maker in browser
    Mapmaker,
}

#[derive(Clone, Debug)]
pub enum SolverCommand {
    /// List available solvers
    List,
    /// Solver details
    Info {
        /// Solver id
        name: String,
    },
}

#[derive(Clone, Debug)]
pub enum ConfigCommand {
    /// Show all constants
    Show,
    /// Get a specific constant
    Get {
        /// Constant name
        key: String,
    },
}

impl Command {
    /// Every command but shell-completion generation runs inside the
    /// project and needs its root directory.
    pub fn needs_project_root(&self) -> (r: bool)
        ensures
            r == !(self is Completions),
    {
        match self {
            Command::Completions { .. } => false,
            _ => true,
        }
    }
}

} // verus!
