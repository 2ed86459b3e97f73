//! Why an `Xargo.toml` is refused.
use vstd::prelude::*;
use vstd::string::*;

use crate::text::{render_i64, signed_decimal};

verus! {

/// An error in an `Xargo.toml`, or in a path that it names.
#[derive(Debug)]
pub enum Error {
    /// Both lists of dependencies are given, and the general one is not a table.
    DependenciesNotTable,
    /// Both lists of dependencies are given, and the one of the target is not a table.
    TargetDependenciesNotTable { target: String },
    /// Only one list of dependencies is given, and it is not a table.
    ListNotTable { target: String },
    /// Both lists of dependencies name this crate.
    DuplicateDependency { krate: String },
    /// `xargo.track-sysroot` is not a boolean.
    TrackSysrootNotBoolean,
    /// The entry of this crate is not a table.
    DependencyNotTable { target: String, krate: String },
    /// The stage of this crate is not an integer.
    StageNotInteger { krate: String },
    /// The path of this crate is not a string.
    PathNotString { krate: String },
    /// This path cannot be made canonical.
    NotCanonical { path: String },
    /// The options of this stage are not a table.
    StageOptionsNotTable { stage: i64 },
    /// The `disable-staged-api` option of this stage is not a boolean.
    StagedApiNotBoolean { stage: i64 },
}

/// What an error says.
pub enum Fault {
    DependenciesNotTable,
    TargetDependenciesNotTable { target: Seq<char> },
    ListNotTable { target: Seq<char> },
    DuplicateDependency { krate: Seq<char> },
    TrackSysrootNotBoolean,
    DependencyNotTable { target: Seq<char>, krate: Seq<char> },
    StageNotInteger { krate: Seq<char> },
    PathNotString { krate: Seq<char> },
    NotCanonical { path: Seq<char> },
    StageOptionsNotTable { stage: i64 },
    StagedApiNotBoolean { stage: i64 },
}

impl View for Error {
    type V = Fault;

    open spec fn view(&self) -> Fault {
        match self {
            Error::DependenciesNotTable => Fault::DependenciesNotTable,
            Error::TargetDependenciesNotTable { target } => Fault::TargetDependenciesNotTable {
                target: target@,
            },
            Error::ListNotTable { target } => Fault::ListNotTable { target: target@ },
            Error::DuplicateDependency { krate } => Fault::DuplicateDependency { krate: krate@ },
            Error::TrackSysrootNotBoolean => Fault::TrackSysrootNotBoolean,
            Error::DependencyNotTable { target, krate } => Fault::DependencyNotTable {
                target: target@,
                krate: krate@,
            },
            Error::StageNotInteger { krate } => Fault::StageNotInteger { krate: krate@ },
            Error::PathNotString { krate } => Fault::PathNotString { krate: krate@ },
            Error::NotCanonical { path } => Fault::NotCanonical { path: path@ },
            Error::StageOptionsNotTable { stage } => Fault::StageOptionsNotTable { stage: *stage },
            Error::StagedApiNotBoolean { stage } => Fault::StagedApiNotBoolean { stage: *stage },
        }
    }
}

/// The message that tells a user of an error.
pub open spec fn message(fault: Fault) -> Seq<char> {
    match fault {
        Fault::DependenciesNotTable => "Xargo.toml: `dependencies` must be a table"@,
        Fault::TargetDependenciesNotTable { target } => "Xargo.toml: `target."@ + target
            + ".dependencies` must be a table"@,
        Fault::ListNotTable { target } => "Xargo.toml: target."@ + target
            + ".dependencies must be a table"@,
        Fault::DuplicateDependency { krate } => "found duplicate dependency name "@ + krate
            + ", but all dependencies must have a unique name"@,
        Fault::TrackSysrootNotBoolean => "Xargo.toml: xargo.track-sysroot must be a boolean"@,
        Fault::DependencyNotTable { target, krate } => "Xargo.toml: target."@ + target
            + ".dependencies."@ + krate + " must be a table"@,
        Fault::StageNotInteger { krate } => "dependencies."@ + krate
            + ".stage must be an integer"@,
        Fault::PathNotString { krate } => "dependencies."@ + krate + ".path must be a string"@,
        Fault::NotCanonical { path } => "couldn't canonicalize "@ + path,
        Fault::StageOptionsNotTable { stage } => "Xargo.toml: `xargo.stage"@ + signed_decimal(
            stage as int,
        ) + "` must be a table"@,
        Fault::StagedApiNotBoolean { stage } => "Xargo.toml: `xargo.stage"@ + signed_decimal(
            stage as int,
        ) + "` must be a boolean"@,
    }
}

fn join3(a: &str, b: &str, c: &str) -> (r: String)
    ensures
        r@ == a@ + b@ + c@,
{
    let mut r: String = a.to_owned();
    r.append(b);
    r.append(c);
    r
}

impl Error {
    /// The message of this error.
    pub fn message(&self) -> (r: String)
        ensures
            r@ == message(self@),
    {
        match self {
            Error::DependenciesNotTable => "Xargo.toml: `dependencies` must be a table".to_owned(),
            Error::TargetDependenciesNotTable { target } => join3(
                "Xargo.toml: `target.",
                target.as_str(),
                ".dependencies` must be a table",
            ),
            Error::ListNotTable { target } => join3(
                "Xargo.toml: target.",
                target.as_str(),
                ".dependencies must be a table",
            ),
            Error::DuplicateDependency { krate } => join3(
                "found duplicate dependency name ",
                krate.as_str(),
                ", but all dependencies must have a unique name",
            ),
            Error::TrackSysrootNotBoolean => {
                "Xargo.toml: xargo.track-sysroot must be a boolean".to_owned()
            },
            Error::DependencyNotTable { target, krate } => {
                let mut r: String = join3("Xargo.toml: target.", target.as_str(), ".dependencies.");
                r.append(krate.as_str());
                r.append(" must be a table");
                r
            },
            Error::StageNotInteger { krate } => join3(
                "dependencies.",
                krate.as_str(),
                ".stage must be an integer",
            ),
            Error::PathNotString { krate } => join3(
                "dependencies.",
                krate.as_str(),
                ".path must be a string",
            ),
            Error::NotCanonical { path } => {
                let mut r: String = "couldn't canonicalize ".to_owned();
                r.append(path.as_str());
                r
            },
            Error::StageOptionsNotTable { stage } => {
                let number: String = render_i64(*stage);
                join3("Xargo.toml: `xargo.stage", number.as_str(), "` must be a table")
            },
            Error::StagedApiNotBoolean { stage } => {
                let number: String = render_i64(*stage);
                join3("Xargo.toml: `xargo.stage", number.as_str(), "` must be a boolean")
            },
        }
    }
}

/// A message names what it is about: the target, the crate, the path or the stage, each where the
/// user finds it in the file.
pub proof fn law_messages_name_their_subject(
    target: Seq<char>,
    krate: Seq<char>,
    path: Seq<char>,
    stage: i64,
)
    ensures
        message(Fault::TargetDependenciesNotTable { target }) == "Xargo.toml: `target."@ + target
            + ".dependencies` must be a table"@,
        message(Fault::ListNotTable { target }) == "Xargo.toml: target."@ + target
            + ".dependencies must be a table"@,
        message(Fault::DuplicateDependency { krate }) == "found duplicate dependency name "@ + krate
            + ", but all dependencies must have a unique name"@,
        message(Fault::DependencyNotTable { target, krate }) == "Xargo.toml: target."@ + target
            + ".dependencies."@ + krate + " must be a table"@,
        message(Fault::StageNotInteger { krate }) == "dependencies."@ + krate
            + ".stage must be an integer"@,
        message(Fault::PathNotString { krate }) == "dependencies."@ + krate
            + ".path must be a string"@,
        message(Fault::NotCanonical { path }) == "couldn't canonicalize "@ + path,
        message(Fault::StageOptionsNotTable { stage }) == "Xargo.toml: `xargo.stage"@
            + signed_decimal(stage as int) + "` must be a table"@,
        message(Fault::StagedApiNotBoolean { stage }) == "Xargo.toml: `xargo.stage"@
            + signed_decimal(stage as int) + "` must be a boolean"@,
{
}

/// An error says which of the faults it is, and of what.
pub proof fn law_errors(error: Error)
    ensures
        match error@ {
            Fault::DependenciesNotTable => error is DependenciesNotTable,
            Fault::TargetDependenciesNotTable { target: t } => error matches
                Error::TargetDependenciesNotTable { target } && target@ == t,
            Fault::ListNotTable { target: t } => error matches Error::ListNotTable { target }
                && target@ == t,
            Fault::DuplicateDependency { krate: k } => error matches Error::DuplicateDependency {
                krate,
            } && krate@ == k,
            Fault::TrackSysrootNotBoolean => error is TrackSysrootNotBoolean,
            Fault::DependencyNotTable { target: t, krate: k } => error matches
                Error::DependencyNotTable { target, krate } && target@ == t && krate@ == k,
            Fault::StageNotInteger { krate: k } => error matches Error::StageNotInteger { krate }
                && krate@ == k,
            Fault::PathNotString { krate: k } => error matches Error::PathNotString { krate }
                && krate@ == k,
            Fault::NotCanonical { path: p } => error matches Error::NotCanonical { path } && path@
                == p,
            Fault::StageOptionsNotTable { stage: n } => error matches Error::StageOptionsNotTable {
                stage,
            } && stage == n,
            Fault::StagedApiNotBoolean { stage: n } => error matches Error::StagedApiNotBoolean {
                stage,
            } && stage == n,
        },
{
}

} // verus!
