//! Drawing up a blueprint.
//!
//! What stands on disk decides some of a blueprint. A draft asks for it, one question at a time,
//! and goes on from the answer.
use vstd::prelude::*;
use vstd::string::*;

use crate::blueprint::{
    fresh, pushed, valid_blueprint, valid_stage, workspace_patch, Blueprint, BlueprintModel,
};
use crate::document::{
    doc_of, entries_of, holds_key, inserted, lemma_inserted_valid, lemma_removed_valid, lookup,
    removed, valid, valid_entry, Doc, Entries, Item, Table,
};
use crate::error::{Error, Fault};
use crate::listing::{
    apply_stage_options, lemma_listed_valid, list_dependencies, listed, read_track_sysroot,
    said, tracked_by, valid_toml, with_options, Toml, TomlModel,
};
use crate::text::text_of;

verus! {

/// A question that a draft asks.
#[derive(Debug)]
pub enum Query {
    /// Is this path, which the entry of `krate` gives, absolute?
    IsAbsolute { krate: String, path: String },
    /// What is the canonical form of this path, which is relative to the root of the project?
    Canonicalize { krate: String, path: String },
    /// Is there a file of this name in the sources, and what is its path?
    FindLibrary { krate: String, name: String },
    /// Is there a file of this name in the sources, and what is its path? It is asked when the
    /// stage is made.
    FindWorkspace { stage: i64, name: String },
}

/// What a question says.
pub enum QueryModel {
    IsAbsolute { krate: Seq<char>, path: Seq<char> },
    Canonicalize { krate: Seq<char>, path: Seq<char> },
    FindLibrary { krate: Seq<char>, name: Seq<char> },
    FindWorkspace { stage: i64, name: Seq<char> },
}

impl View for Query {
    type V = QueryModel;

    open spec fn view(&self) -> QueryModel {
        match self {
            Query::IsAbsolute { krate, path } => QueryModel::IsAbsolute {
                krate: krate@,
                path: path@,
            },
            Query::Canonicalize { krate, path } => QueryModel::Canonicalize {
                krate: krate@,
                path: path@,
            },
            Query::FindLibrary { krate, name } => QueryModel::FindLibrary {
                krate: krate@,
                name: name@,
            },
            Query::FindWorkspace { stage, name } => QueryModel::FindWorkspace {
                stage: *stage,
                name: name@,
            },
        }
    }
}

/// A crate on its way into the blueprint.
#[derive(Debug)]
struct Job {
    krate: String,
    stage: i64,
    table: Table,
}

/// What a draft waits for.
#[derive(Debug)]
enum Wait {
    Ready,
    Absolute { job: Job, path: String },
    Canonical { job: Job, path: String },
    Library { job: Job },
    Workspace { job: Job },
}

/// A blueprint in the making.
#[derive(Debug)]
pub struct Draft {
    target: String,
    xargo: Option<Item>,
    pending: Vec<(String, Item)>,
    blueprint: Blueprint,
    wait: Wait,
}

/// A crate on its way into the blueprint: its name, its stage and the table of its entry.
pub struct JobModel {
    pub krate: Seq<char>,
    pub stage: i64,
    pub table: Entries,
}

/// What a draft waits for, if it waits.
pub enum WaitModel {
    Ready,
    Absolute { job: JobModel, path: Seq<char> },
    Canonical { job: JobModel, path: Seq<char> },
    Library { job: JobModel },
    Workspace { job: JobModel },
}

/// A draft: what is placed in the blueprint, the entries that are not looked at yet, and the crate
/// in between.
pub struct DraftModel {
    pub target: Seq<char>,
    pub xargo: Option<Doc>,
    pub pending: Entries,
    pub blueprint: BlueprintModel,
    pub wait: WaitModel,
}

impl Job {
    closed spec fn view(&self) -> JobModel {
        JobModel { krate: self.krate@, stage: self.stage, table: self.table@ }
    }
}

impl Wait {
    closed spec fn view(&self) -> WaitModel {
        match self {
            Wait::Ready => WaitModel::Ready,
            Wait::Absolute { job, path } => WaitModel::Absolute { job: job@, path: path@ },
            Wait::Canonical { job, path } => WaitModel::Canonical { job: job@, path: path@ },
            Wait::Library { job } => WaitModel::Library { job: job@ },
            Wait::Workspace { job } => WaitModel::Workspace { job: job@ },
        }
    }
}

impl View for Draft {
    type V = DraftModel;

    closed spec fn view(&self) -> DraftModel {
        DraftModel {
            target: self.target@,
            xargo: doc_of(self.xargo),
            pending: entries_of(self.pending@),
            blueprint: self.blueprint@,
            wait: self.wait@,
        }
    }
}

/// The stage that the entry of a crate gives; without one it is the first.
pub open spec fn stage_of(krate: Seq<char>, table: Entries) -> Result<i64, Fault> {
    match lookup(table, "stage"@) {
        None => Ok(0i64),
        Some(Doc::Integer(i)) => Ok(i),
        Some(_) => Err(Fault::StageNotInteger { krate }),
    }
}

/// The path that the entry of a crate gives.
pub open spec fn path_of(krate: Seq<char>, table: Entries) -> Result<Option<Seq<char>>, Fault> {
    match lookup(table, "path"@) {
        None => Ok(None),
        Some(Doc::String(path)) => Ok(Some(path)),
        Some(_) => Err(Fault::PathNotString { krate }),
    }
}

/// A table with that path.
pub open spec fn at_path(table: Entries, path: Seq<char>) -> Entries {
    inserted(table, "path"@, Doc::String(path))
}

/// The question that a draft asks.
pub open spec fn asked(draft: DraftModel) -> Option<QueryModel> {
    match draft.wait {
        WaitModel::Ready => None,
        WaitModel::Absolute { job, path } => Some(
            QueryModel::IsAbsolute { krate: job.krate, path },
        ),
        WaitModel::Canonical { job, path } => Some(
            QueryModel::Canonicalize { krate: job.krate, path },
        ),
        WaitModel::Library { job } => Some(library_query(job.krate)),
        WaitModel::Workspace { job } => Some(workspace_query(job.stage)),
    }
}

/// Whether a path has a character that can mark a root or a drive.
pub open spec fn marked(path: Seq<char>) -> bool {
    path.contains('/') || path.contains('\\') || path.contains(':')
}

/// The question where the sources have a crate.
pub open spec fn library_query(krate: Seq<char>) -> QueryModel {
    QueryModel::FindLibrary { krate, name: "lib"@ + krate }
}

/// The question where the sources have `rustc-std-workspace-core`.
pub open spec fn workspace_query(stage: i64) -> QueryModel {
    QueryModel::FindWorkspace { stage, name: "tools/rustc-std-workspace-core"@ }
}

/// A draft in which a crate whose table is settled goes to its stage: at once if there is such a
/// stage, else as soon as it is known how to make one.
pub open spec fn joined(draft: DraftModel, job: JobModel) -> DraftModel {
    if draft.blueprint.stages.contains_key(job.stage) {
        DraftModel {
            blueprint: pushed(draft.blueprint, job.stage, job.krate, job.table, None),
            wait: WaitModel::Ready,
            ..draft
        }
    } else {
        DraftModel { wait: WaitModel::Workspace { job }, ..draft }
    }
}

/// A draft that has looked at the first of its pending entries.
pub open spec fn taken(draft: DraftModel) -> Result<DraftModel, Fault> {
    let (krate, doc) = draft.pending[0];
    let rest = DraftModel { pending: draft.pending.drop_first(), ..draft };
    match doc {
        Doc::Table(entry) => match stage_of(krate, entry) {
            Err(fault) => Err(fault),
            Ok(stage) => {
                let job = JobModel { krate, stage, table: removed(entry, "stage"@) };
                match path_of(krate, job.table) {
                    Err(fault) => Err(fault),
                    Ok(Some(path)) => Ok(
                        DraftModel { wait: WaitModel::Absolute { job, path }, ..rest },
                    ),
                    Ok(None) => if holds_key(job.table, "git"@) {
                        Ok(joined(rest, job))
                    } else {
                        Ok(DraftModel { wait: WaitModel::Library { job }, ..rest })
                    },
                }
            },
        },
        _ => Err(Fault::DependencyNotTable { target: draft.target, krate }),
    }
}

/// A draft that has gone on until it waits for an answer or is complete.
pub open spec fn advanced(draft: DraftModel) -> Result<DraftModel, Fault>
    decreases draft.pending.len(),
{
    if draft.wait is Ready && draft.pending.len() > 0 {
        match taken(draft) {
            Err(fault) => Err(fault),
            Ok(next) => advanced(next),
        }
    } else {
        Ok(draft)
    }
}

/// The draft of a blueprint before any answer.
pub open spec fn started(toml: TomlModel, target: Seq<char>) -> Result<DraftModel, Fault> {
    match listed(toml.dependencies, toml.target_dependencies, target) {
        Err(fault) => Err(fault),
        Ok(list) => match tracked_by(toml.xargo) {
            Err(fault) => Err(fault),
            Ok(track_sysroot) => advanced(
                DraftModel {
                    target,
                    xargo: toml.xargo,
                    pending: list,
                    blueprint: BlueprintModel { track_sysroot, stages: Map::empty() },
                    wait: WaitModel::Ready,
                },
            ),
        },
    }
}

/// A draft that has been told whether a path is absolute. An absolute path stays as it is.
pub open spec fn told_absolute(draft: DraftModel, absolute: bool) -> Result<DraftModel, Fault> {
    match draft.wait {
        WaitModel::Absolute { job, path } => if absolute {
            advanced(joined(draft, job))
        } else {
            Ok(DraftModel { wait: WaitModel::Canonical { job, path }, ..draft })
        },
        _ => Ok(draft),
    }
}

/// A draft that has been told what was found on disk.
pub open spec fn told_found(draft: DraftModel, found: Option<Seq<char>>) -> Result<
    DraftModel,
    Fault,
> {
    match draft.wait {
        WaitModel::Canonical { job, path } => match found {
            None => Err(Fault::NotCanonical { path }),
            Some(canonical) => advanced(
                joined(draft, JobModel { table: at_path(job.table, canonical), ..job }),
            ),
        },
        WaitModel::Library { job } => match found {
            None => advanced(joined(draft, job)),
            Some(path) => advanced(
                joined(draft, JobModel { table: at_path(job.table, path), ..job }),
            ),
        },
        WaitModel::Workspace { job } => advanced(
            DraftModel {
                blueprint: pushed(draft.blueprint, job.stage, job.krate, job.table, found),
                wait: WaitModel::Ready,
                ..draft
            },
        ),
        _ => Ok(draft),
    }
}

/// The crate that a draft is at.
pub open spec fn job_of(wait: WaitModel) -> Option<JobModel> {
    match wait {
        WaitModel::Ready => None,
        WaitModel::Absolute { job, path } => Some(job),
        WaitModel::Canonical { job, path } => Some(job),
        WaitModel::Library { job } => Some(job),
        WaitModel::Workspace { job } => Some(job),
    }
}

/// Whether the tables of a draft are valid.
pub open spec fn valid_draft(draft: DraftModel) -> bool {
    &&& forall|i: int| 0 <= i < draft.pending.len() ==> valid_entry((#[trigger] draft.pending[i]).1)
    &&& valid_blueprint(draft.blueprint)
    &&& job_of(draft.wait) matches Some(job) ==> valid(Doc::Table(job.table))
}

/// Whether a draft that asks nothing is complete.
pub open spec fn settled_draft(draft: DraftModel) -> bool {
    draft.wait is Ready ==> draft.pending.len() == 0
}

/// Adding a crate with a valid table keeps a blueprint valid.
pub proof fn lemma_pushed_valid(
    blueprint: BlueprintModel,
    stage: i64,
    krate: Seq<char>,
    table: Entries,
    workspace: Option<Seq<char>>,
)
    requires
        valid_blueprint(blueprint),
        valid(Doc::Table(table)),
    ensures
        valid_blueprint(pushed(blueprint, stage, krate, table, workspace)),
{
    let before = if blueprint.stages.contains_key(stage) {
        blueprint.stages[stage]
    } else {
        fresh(workspace)
    };
    assert(valid_stage(before)) by {
        if !blueprint.stages.contains_key(stage) {
            if let Some(path) = workspace {
                reveal_with_fuel(valid, 4);
                assert(valid(Doc::Table(workspace_patch(path))));
            }
        }
    }
    lemma_inserted_valid(before.dependencies, krate, Doc::Table(table));
}

impl Draft {
    /// Whether this draft may go on.
    pub closed spec fn wf(&self) -> bool {
        settled_draft(self@)
    }

    fn join(self, job: Job) -> (r: Draft)
        ensures
            r@ == joined(self@, job@),
            valid_draft(self@) && valid(Doc::Table(job@.table)) ==> valid_draft(r@),
    {
        let mut draft: Draft = self;
        if draft.blueprint.has_stage(job.stage) {
            proof {
                if valid_draft(self@) && valid(Doc::Table(job@.table)) {
                    lemma_pushed_valid(
                        draft.blueprint@,
                        job.stage,
                        job.krate@,
                        job.table@,
                        None,
                    );
                }
            }
            draft.blueprint.push(job.stage, job.krate, job.table, None);
            draft.wait = Wait::Ready;
        } else {
            draft.wait = Wait::Workspace { job };
        }
        draft
    }

    fn take_next(self) -> (r: Result<Draft, Error>)
        requires
            self@.wait is Ready,
            self@.pending.len() > 0,
        ensures
            match r {
                Ok(draft) => taken(self@) == Ok::<DraftModel, Fault>(draft@) && (valid_draft(self@)
                    ==> valid_draft(draft@)) && draft@.pending.len() + 1 == self@.pending.len(),
                Err(e) => taken(self@) == Err::<DraftModel, Fault>(e@),
            },
    {
        let mut draft: Draft = self;
        let entry: (String, Item) = draft.pending.remove(0);
        let krate: String = entry.0;
        let ghost doc = entry.1@;
        proof {
            assert(entries_of(draft.pending@) =~= self@.pending.drop_first());
            assert(self@.pending[0] == (krate@, doc));
            if valid_draft(self@) {
                assert(valid_entry(doc));
                assert forall|i: int| 0 <= i < draft@.pending.len() implies valid_entry(
                    (#[trigger] draft@.pending[i]).1,
                ) by {
                    assert(draft@.pending[i] == self@.pending[i + 1]);
                }
            }
        }
        let mut table: Table = match entry.1 {
            Item::Table(table) => table,
            _ => return Err(Error::DependencyNotTable { target: draft.target, krate }),
        };
        proof {
            if valid_draft(self@) {
                lemma_removed_valid(table@, "stage"@);
            }
        }
        let stage: i64 = match table.remove("stage") {
            Some(Item::Integer(stage)) => stage,
            Some(_) => return Err(Error::StageNotInteger { krate }),
            None => 0,
        };
        let path: Option<String> = match table.get("path") {
            Some(Item::String(path)) => Some(path.clone()),
            Some(_) => return Err(Error::PathNotString { krate }),
            None => None,
        };
        let git: bool = table.contains_key("git");
        let job: Job = Job { krate, stage, table };
        match path {
            Some(path) => {
                draft.wait = Wait::Absolute { job, path };
                Ok(draft)
            },
            None => if git {
                Ok(draft.join(job))
            } else {
                draft.wait = Wait::Library { job };
                Ok(draft)
            },
        }
    }

    fn advance(self) -> (r: Result<Draft, Error>)
        ensures
            match r {
                Ok(draft) => advanced(self@) == Ok::<DraftModel, Fault>(draft@) && draft.wf() && (
                valid_draft(self@) ==> valid_draft(draft@)),
                Err(e) => advanced(self@) == Err::<DraftModel, Fault>(e@),
            },
        decreases self@.pending.len(),
    {
        let ready: bool = match &self.wait {
            Wait::Ready => true,
            _ => false,
        };
        if ready && self.pending.len() > 0 {
            match self.take_next() {
                Ok(draft) => draft.advance(),
                Err(e) => Err(e),
            }
        } else {
            Ok(self)
        }
    }

    /// The question that this draft asks; none if it is complete.
    pub fn query(&self) -> (r: Option<Query>)
        ensures
            match r {
                Some(query) => asked(self@) == Some(query@),
                None => asked(self@) is None,
            },
    {
        match &self.wait {
            Wait::Ready => None,
            Wait::Absolute { job, path } => Some(
                Query::IsAbsolute { krate: job.krate.clone(), path: path.clone() },
            ),
            Wait::Canonical { job, path } => Some(
                Query::Canonicalize { krate: job.krate.clone(), path: path.clone() },
            ),
            Wait::Library { job } => {
                let mut name: String = "lib".to_owned();
                name.append(job.krate.as_str());
                Some(Query::FindLibrary { krate: job.krate.clone(), name })
            },
            Wait::Workspace { job } => Some(
                Query::FindWorkspace {
                    stage: job.stage,
                    name: "tools/rustc-std-workspace-core".to_owned(),
                },
            ),
        }
    }

    /// Answers whether the path in question is absolute.
    pub fn reply_absolute(self, absolute: bool) -> (r: Result<Draft, Error>)
        requires
            self.wf(),
        ensures
            match r {
                Ok(draft) => told_absolute(self@, absolute) == Ok::<DraftModel, Fault>(draft@)
                    && draft.wf() && (valid_draft(self@) ==> valid_draft(draft@)),
                Err(e) => told_absolute(self@, absolute) == Err::<DraftModel, Fault>(e@),
            },
    {
        let mut draft: Draft = self;
        let mut wait: Wait = Wait::Ready;
        std::mem::swap(&mut wait, &mut draft.wait);
        match wait {
            Wait::Absolute { job, path } => if absolute {
                draft.join(job).advance()
            } else {
                draft.wait = Wait::Canonical { job, path };
                Ok(draft)
            },
            other => {
                draft.wait = other;
                Ok(draft)
            },
        }
    }

    /// Answers what was found on disk: the canonical path, or the path of the file in question.
    pub fn reply(self, found: Option<String>) -> (r: Result<Draft, Error>)
        requires
            self.wf(),
        ensures
            match r {
                Ok(draft) => told_found(self@, text_of(found)) == Ok::<DraftModel, Fault>(draft@)
                    && draft.wf() && (valid_draft(self@) ==> valid_draft(draft@)),
                Err(e) => told_found(self@, text_of(found)) == Err::<DraftModel, Fault>(e@),
            },
    {
        let mut draft: Draft = self;
        let mut wait: Wait = Wait::Ready;
        std::mem::swap(&mut wait, &mut draft.wait);
        match wait {
            Wait::Canonical { job, path } => match found {
                Some(canonical) => draft.join(job.at_path(canonical)).advance(),
                None => Err(Error::NotCanonical { path }),
            },
            Wait::Library { job } => match found {
                Some(path) => draft.join(job.at_path(path)).advance(),
                None => draft.join(job).advance(),
            },
            Wait::Workspace { job } => {
                proof {
                    if valid_draft(self@) {
                        lemma_pushed_valid(
                            draft.blueprint@,
                            job.stage,
                            job.krate@,
                            job.table@,
                            text_of(found),
                        );
                    }
                }
                draft.blueprint.push(job.stage, job.krate, job.table, found);
                draft.advance()
            },
            other => {
                draft.wait = other;
                Ok(draft)
            },
        }
    }

    /// Lets the platform decide whether the path in question is absolute. A path without a mark is
    /// relative on every platform.
    pub fn test_path(self) -> (r: Result<Draft, Error>)
        requires
            self.wf(),
        ensures
            exists|absolute: bool|
                {
                    &&& asked(self@) matches Some(QueryModel::IsAbsolute { path, .. }) ==> (absolute
                        ==> marked(path))
                    &&& match r {
                        Ok(draft) => #[trigger] told_absolute(self@, absolute) == Ok::<
                            DraftModel,
                            Fault,
                        >(draft@) && draft.wf() && (valid_draft(self@) ==> valid_draft(draft@)),
                        Err(e) => told_absolute(self@, absolute) == Err::<DraftModel, Fault>(e@),
                    }
                },
    {
        let absolute: bool = match &self.wait {
            Wait::Absolute { path, .. } => is_absolute(path.as_str()),
            _ => false,
        };
        self.reply_absolute(absolute)
    }

    /// Completes the blueprint with the options of its stages.
    pub fn finish(self) -> (r: Result<Blueprint, Error>)
        requires
            self.wf(),
            asked(self@) is None,
        ensures
            match r {
                Ok(blueprint) => with_options(self@.blueprint, self@.xargo) == Ok::<
                    BlueprintModel,
                    Fault,
                >(blueprint@) && (valid_draft(self@) ==> valid_blueprint(blueprint@)),
                Err(e) => with_options(self@.blueprint, self@.xargo) == Err::<
                    BlueprintModel,
                    Fault,
                >(e@),
            },
    {
        apply_stage_options(self.blueprint, &self.xargo)
    }
}

impl Job {
    fn at_path(self, path: String) -> (r: Job)
        ensures
            r@ == (JobModel { table: at_path(self@.table, path@), ..self@ }),
            valid(Doc::Table(self@.table)) ==> valid(Doc::Table(r@.table)),
    {
        let mut job: Job = self;
        proof {
            if valid(Doc::Table(self@.table)) {
                lemma_inserted_valid(job.table@, "path"@, Doc::String(path@));
            }
        }
        job.table.insert("path".to_owned(), Item::String(path));
        job
    }
}

/// Tests with `std::path::Path::is_absolute` whether a path is absolute. An absolute path starts
/// with a root, and on Windows with a prefix before it, so it has a character that marks one.
/// Platforms differ in which of the marked paths they take for absolute: of those nothing is
/// claimed.
#[verifier::external_body]
fn is_absolute(path: &str) -> (r: bool)
    ensures
        r ==> marked(path@),
{
    std::path::Path::new(path).is_absolute()
}

impl Blueprint {
    /// Starts to draw up the blueprint of a target's sysroot from what `Xargo.toml` says.
    pub fn from(toml: Option<Toml>, target: &str) -> (r: Result<Draft, Error>)
        ensures
            match r {
                Ok(draft) => started(said(toml), target@) == Ok::<DraftModel, Fault>(draft@)
                    && draft.wf() && (valid_toml(said(toml)) ==> valid_draft(draft@)),
                Err(e) => started(said(toml), target@) == Err::<DraftModel, Fault>(e@),
            },
    {
        let given: Toml = match toml {
            Some(toml) => toml,
            None => Toml { dependencies: None, target_dependencies: None, xargo: None },
        };
        let list: Table = match list_dependencies(
            given.dependencies,
            given.target_dependencies,
            target,
        ) {
            Ok(list) => list,
            Err(e) => return Err(e),
        };
        let mut blueprint: Blueprint = Blueprint::new();
        blueprint.track_sysroot = match read_track_sysroot(&given.xargo) {
            Ok(track_sysroot) => track_sysroot,
            Err(e) => return Err(e),
        };
        proof {
            if valid_toml(given@) {
                lemma_listed_valid(given@, target@);
            }
            assert(blueprint@.stages =~= Map::empty());
        }
        let draft: Draft = Draft {
            target: target.to_owned(),
            xargo: given.xargo,
            pending: list.into_entries(),
            blueprint,
            wait: Wait::Ready,
        };
        draft.advance()
    }
}

/// A draft asks about a path as it is given, looks for a crate under its name after `lib`, and for
/// `rustc-std-workspace-core` among the tools.
pub proof fn law_questions(draft: DraftModel)
    ensures
        match asked(draft) {
            None => draft.wait is Ready,
            Some(QueryModel::IsAbsolute { krate, path }) => draft.wait matches WaitModel::Absolute {
                job,
                path: given,
            } && path == given && krate == job.krate,
            Some(QueryModel::Canonicalize { krate, path }) => draft.wait matches
                WaitModel::Canonical { job, path: given } && path == given && krate == job.krate,
            Some(QueryModel::FindLibrary { krate, name }) => draft.wait matches
                WaitModel::Library { job } && name == "lib"@ + krate && krate == job.krate,
            Some(QueryModel::FindWorkspace { stage, name }) => draft.wait matches
                WaitModel::Workspace { job } && name == "tools/rustc-std-workspace-core"@ && stage
                == job.stage,
        },
{
}

} // verus!
