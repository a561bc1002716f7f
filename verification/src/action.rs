//! What can be asked of a target, and which targets are asked.

use vstd::prelude::*;
use crate::text::{append_chars, chars_of, same_chars, starts_with, string_of};

verus! {

/// Where a build puts what it produces.
#[derive(Debug, Clone, PartialEq, Eq)]
pub struct Build {
    pub out: String,
}

/// An action on a target.
#[derive(Debug, Clone, PartialEq, Eq)]
pub enum Action {
    Test,
    Lint,
    Format,
    Build(Build),
}

/// An action, and the targets it is asked of.
#[derive(Debug, Clone, PartialEq, Eq)]
pub struct ActionCommand {
    /// Only targets whose address begins with this are asked.
    pub filter: Option<String>,
    pub verb: Action,
}

/// What the program is asked to do.
#[derive(Debug, Clone, PartialEq, Eq)]
pub enum Command {
    CacheLoad { from: String },
    CacheSave { to: String },
    LockfileHash,
    Do(ActionCommand),
    Action(Action),
}

/// How progress is shown.
#[derive(Debug, Clone, Copy, PartialEq, Eq)]
pub enum ProgressKind {
    /// Log lines, for unattended runs.
    ContinuousIntegration,
    /// A live display on a terminal.
    Terminal,
    /// Nothing.
    Silent,
}

/// The name of an action.
pub open spec fn action_name(action: Action) -> Seq<char> {
    match action {
        Action::Test => "test"@,
        Action::Lint => "lint"@,
        Action::Format => "format"@,
        Action::Build(_) => "build"@,
    }
}

/// Whether a success of the action may stand for later runs on the same
/// inputs: true of every action but a build.
pub open spec fn is_cacheable(action: Action) -> bool {
    !(action is Build)
}

/// The name under which an action on a target runs: the action's name, a
/// space and the target's address.
pub open spec fn task_name_of(action: Action, address: Seq<char>) -> Seq<char> {
    action_name(action) + seq![' '] + address
}

/// Whether a target is asked: it is not among `skip`, and its address
/// begins with the filter if there is one.
pub open spec fn is_asked(target: Seq<char>, skip: Seq<String>, filter: Option<String>) -> bool {
    &&& forall|i: int| 0 <= i < skip.len() ==> (#[trigger] skip[i])@ != target
    &&& filter matches Some(f) ==> f@.is_prefix_of(target)
}

/// The action that a command asks for, if it asks for one.
pub open spec fn asked_action(command: Command) -> Option<ActionCommand> {
    match command {
        Command::Do(action) => Some(action),
        Command::Action(verb) => Some(ActionCommand { filter: None, verb }),
        _ => None,
    }
}

/// How progress is shown when the variable `CI` holds `ci` and standard
/// error is or is not a terminal.
pub open spec fn progress_for(ci: Option<String>, on_terminal: bool) -> ProgressKind {
    if ci matches Some(v) && v@ == "true"@ {
        ProgressKind::ContinuousIntegration
    } else if on_terminal {
        ProgressKind::Terminal
    } else {
        ProgressKind::Silent
    }
}

impl Action {
    /// Whether a success of the action may stand for later runs on the
    /// same inputs.
    pub fn can_cache_success(&self) -> (b: bool)
        ensures
            b == is_cacheable(*self),
    {
        match self {
            Action::Test | Action::Lint | Action::Format => true,
            Action::Build(_) => false,
        }
    }

    /// The name of the action.
    pub fn to_string(&self) -> (name: String)
        ensures
            name@ == action_name(*self),
    {
        match self {
            Action::Test => "test".to_owned(),
            Action::Lint => "lint".to_owned(),
            Action::Format => "format".to_owned(),
            Action::Build(_) => "build".to_owned(),
        }
    }

    /// The name under which the action runs on the target at `address`.
    pub fn task_name(&self, address: &str) -> (name: String)
        ensures
            name@ == task_name_of(*self, address@),
    {
        let verb = self.to_string();
        let mut out = chars_of(verb.as_str());
        out.push(' ');
        let rest = chars_of(address);
        append_chars(&mut out, &rest);
        string_of(&out)
    }
}

impl Command {
    /// The action that the command asks for, if it asks for one.
    pub fn action(self) -> (r: Option<ActionCommand>)
        ensures
            r == asked_action(self),
    {
        match self {
            Command::Do(action) => Some(action),
            Command::Action(verb) => Some(ActionCommand { filter: None, verb }),
            _ => None,
        }
    }
}

/// Whether the target at address `target` is asked.
pub fn should_run(target: &str, skip: &Vec<String>, filter: &Option<String>) -> (b: bool)
    ensures
        b == is_asked(target@, skip@, *filter),
{
    let address = chars_of(target);
    let mut i: usize = 0;
    while i < skip.len()
        invariant
            i <= skip.len(),
            address@ == target@,
            forall|k: int| 0 <= k < i ==> (#[trigger] skip@[k])@ != target@,
        decreases skip.len() - i,
    {
        let name = chars_of(skip[i].as_str());
        if same_chars(&name, &address) {
            return false;
        }
        i += 1;
    }
    match filter {
        Some(f) => {
            let prefix = chars_of(f.as_str());
            starts_with(&address, &prefix)
        },
        None => true,
    }
}

/// How progress is shown, given the value of the variable `CI` and whether
/// standard error is a terminal.
pub fn choose_progress(ci: Option<String>, on_terminal: bool) -> (kind: ProgressKind)
    ensures
        kind == progress_for(ci, on_terminal),
{
    let in_ci = match &ci {
        Some(v) => {
            let have = chars_of(v.as_str());
            let want = chars_of("true");
            same_chars(&have, &want)
        },
        None => false,
    };
    if in_ci {
        ProgressKind::ContinuousIntegration
    } else if on_terminal {
        ProgressKind::Terminal
    } else {
        ProgressKind::Silent
    }
}

} // verus!
