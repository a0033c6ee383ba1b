//! The commands that the tool understands.
use vstd::prelude::*;

use crate::profiles::ProfileAction;

verus! {

/// A command line: the action to execute, and whether to report progress.
#[derive(Debug, Clone)]
pub struct Cli {
    pub action: Action,
    pub verbose: bool,
}

/// The actions of the tool.
#[derive(Debug, Clone)]
pub enum Action {
    /// List the available profiles.
    List,
    /// Switch to a profile: link the files of its modules.
    Switch(ProfileArgs),
    /// Back up the files that a profile would replace.
    Backup(ProfileArgs),
    /// Preview the files that a profile would replace.
    Preview(ProfileArgs),
}

/// A profile and the modules of it to use.
#[derive(Debug, Clone)]
pub struct ProfileArgs {
    pub name: String,
    pub modules: Vec<String>,
}

impl Action {
    /// The run that the action asks for: none for a listing.
    pub fn profile_action(&self) -> (r: Option<ProfileAction>)
        ensures
            self is List ==> r is None,
            self is Switch ==> r == Some(ProfileAction::Update),
            self is Backup ==> r == Some(ProfileAction::Backup),
            self is Preview ==> r == Some(ProfileAction::Preview),
    {
        match self {
            Action::List => None,
            Action::Switch(_) => Some(ProfileAction::Update),
            Action::Backup(_) => Some(ProfileAction::Backup),
            Action::Preview(_) => Some(ProfileAction::Preview),
        }
    }
}

} // verus!
