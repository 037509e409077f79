//! Where files are kept between sessions.
use vstd::prelude::*;
use vstd::string::*;

verus! {

/// Where a directory is found.
#[derive(Clone, Copy, Debug, PartialEq, Eq, Structural)]
pub enum Base {
    /// In the variable that names the file itself.
    Given,
    /// In `LOCALAPPDATA`.
    LocalAppData,
    /// In the variable of the XDG base directories.
    Xdg,
    /// In `HOME`.
    Home,
}

/// Which variables of the environment are set, and not empty.
#[derive(Clone, Copy, Debug, PartialEq, Eq, Structural)]
pub struct Environment {
    pub given: bool,
    pub windows: bool,
    pub local_app_data: bool,
    pub xdg: bool,
    pub home: bool,
}

/// Where a file is kept: in what is given, or else on Windows in the local application data,
/// and on other systems in the XDG directory or below the home directory.
pub open spec fn base_of(environment: Environment) -> Option<Base> {
    if environment.given {
        Some(Base::Given)
    } else if environment.windows {
        if environment.local_app_data {
            Some(Base::LocalAppData)
        } else {
            None
        }
    } else if environment.xdg {
        Some(Base::Xdg)
    } else if environment.home {
        Some(Base::Home)
    } else {
        None
    }
}

/// Decides where a file is kept.
pub fn choose_base(environment: Environment) -> (r: Option<Base>)
    ensures
        r == base_of(environment),
{
    if environment.given {
        Some(Base::Given)
    } else if environment.windows {
        if environment.local_app_data {
            Some(Base::LocalAppData)
        } else {
            None
        }
    } else if environment.xdg {
        Some(Base::Xdg)
    } else if environment.home {
        Some(Base::Home)
    } else {
        None
    }
}

/// The way from a base to the history file.
pub open spec fn history_steps(base: Base) -> Seq<Seq<char>> {
    match base {
        Base::Given => Seq::empty(),
        Base::LocalAppData | Base::Xdg => seq!["gh-actui"@, "history"@],
        Base::Home => seq![".local"@, "state"@, "gh-actui"@, "history"@],
    }
}

/// The way from a base to the run cache.
pub open spec fn cache_steps(base: Base) -> Seq<Seq<char>> {
    match base {
        Base::Given => Seq::empty(),
        Base::LocalAppData | Base::Xdg => seq!["gh-actui"@, "run-cache.json"@],
        Base::Home => seq![".cache"@, "gh-actui"@, "run-cache.json"@],
    }
}

/// Decides where the history file is kept: the base and the way from it.
pub fn command_history_path(environment: Environment) -> (r: Option<(Base, Vec<&'static str>)>)
    ensures
        match r {
            Some((base, steps)) => base_of(environment) == Some(base) && steps@.map_values(
                |s: &'static str| s@,
            ) == history_steps(base),
            None => base_of(environment) is None,
        },
{
    let base = match choose_base(environment) {
        Some(base) => base,
        None => {
            return None;
        },
    };
    let mut steps: Vec<&'static str> = Vec::new();
    match base {
        Base::Given => {},
        Base::LocalAppData | Base::Xdg => {
            steps.push("gh-actui");
            steps.push("history");
        },
        Base::Home => {
            steps.push(".local");
            steps.push("state");
            steps.push("gh-actui");
            steps.push("history");
        },
    }
    assert(steps@.map_values(|s: &'static str| s@) =~= history_steps(base));
    Some((base, steps))
}

/// Decides where the run cache is kept: the base and the way from it.
pub fn run_cache_path(environment: Environment) -> (r: Option<(Base, Vec<&'static str>)>)
    ensures
        match r {
            Some((base, steps)) => base_of(environment) == Some(base) && steps@.map_values(
                |s: &'static str| s@,
            ) == cache_steps(base),
            None => base_of(environment) is None,
        },
{
    let base = match choose_base(environment) {
        Some(base) => base,
        None => {
            return None;
        },
    };
    let mut steps: Vec<&'static str> = Vec::new();
    match base {
        Base::Given => {},
        Base::LocalAppData | Base::Xdg => {
            steps.push("gh-actui");
            steps.push("run-cache.json");
        },
        Base::Home => {
            steps.push(".cache");
            steps.push("gh-actui");
            steps.push("run-cache.json");
        },
    }
    assert(steps@.map_values(|s: &'static str| s@) =~= cache_steps(base));
    Some((base, steps))
}

} // verus!
