//! The command line as parsed, and what it asks for.

use vstd::prelude::*;
use crate::makefile::ParseOptions;
use crate::target::{copy_text, text_of};

verus! {

/// The subcommands.
#[derive(Debug, Clone, PartialEq, Eq)]
pub enum Commands {
    /// Pick a target interactively.
    Pick,
    /// List the targets.
    List,
    /// Run the target of this name.
    Run { target: String },
}

/// The command line.
#[derive(Debug, Clone, PartialEq, Eq)]
pub struct Cli {
    /// The subcommand, if one was given.
    pub command: Option<Commands>,
    /// The Makefile to use in place of those found.
    pub file: Option<String>,
    /// Include private targets.
    pub all: bool,
    /// Include pattern rules.
    pub patterns: bool,
    /// Write the list as JSON.
    pub json: bool,
    /// Do not start the interactive picker.
    pub no_ui: bool,
    /// Look for Makefiles in subdirectories too.
    pub recursive: bool,
    /// Say what would be run and run nothing.
    pub dry_run: bool,
    /// The directory to work in.
    pub cwd: Option<String>,
    /// Neither read nor write the cache.
    pub no_cache: bool,
}

/// What the program is to do.
#[derive(Debug, Clone, PartialEq, Eq)]
pub enum Action {
    /// List the targets.
    List,
    /// Let the user pick a target, then run it.
    Pick,
    /// Run the target of this name.
    Run(String),
}

/// What an `Action` stands for.
pub ghost enum ActionView {
    List,
    Pick,
    Run(Seq<char>),
}

impl View for Action {
    type V = ActionView;

    open spec fn view(&self) -> ActionView {
        match self {
            Action::List => ActionView::List,
            Action::Pick => ActionView::Pick,
            Action::Run(target) => ActionView::Run(target@),
        }
    }
}

impl Cli {
    /// What the command line asks for. Without a subcommand it is the
    /// picker; the picker gives way to the list where JSON is asked for or
    /// the interface is switched off.
    pub open spec fn asks_for(&self) -> ActionView {
        match self.command {
            Some(Commands::List) => ActionView::List,
            Some(Commands::Run { target }) => ActionView::Run(target@),
            _ => if self.json || self.no_ui {
                ActionView::List
            } else {
                ActionView::Pick
            },
        }
    }

    /// What the program is to do.
    pub fn action(&self) -> (r: Action)
        ensures
            r@ == self.asks_for(),
    {
        match &self.command {
            Some(Commands::List) => Action::List,
            Some(Commands::Run { target }) => Action::Run(target.clone()),
            _ => if self.json || self.no_ui {
                Action::List
            } else {
                Action::Pick
            },
        }
    }

    /// The directory to work in: the one given, else the current directory
    /// `current_dir`, else `.`.
    pub fn working_dir(&self, current_dir: Option<String>) -> (r: String)
        ensures
            r@ == match (self.cwd, current_dir) {
                (Some(dir), _) => dir@,
                (None, Some(dir)) => dir@,
                (None, None) => "."@,
            },
    {
        match &self.cwd {
            Some(dir) => dir.clone(),
            None => match current_dir {
                Some(dir) => dir,
                None => ".".to_owned(),
            },
        }
    }

    /// The Makefile that was named, if one was.
    pub fn makefile_path(&self) -> (r: Option<String>)
        ensures
            text_of(r) == text_of(self.file),
    {
        copy_text(&self.file)
    }

    /// Which targets are to be listed.
    pub fn parse_options(&self) -> (r: ParseOptions)
        ensures
            r.include_private == self.all,
            r.include_patterns == self.patterns,
    {
        ParseOptions { include_private: self.all, include_patterns: self.patterns }
    }
}

} // verus!
