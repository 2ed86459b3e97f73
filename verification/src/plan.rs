//! The steps in which a sysroot is built.
use std::collections::BTreeMap;

use vstd::prelude::*;
use vstd::string::*;

use crate::blueprint::{
    in_order, lemma_in_order_last, lemma_in_order_lists, lists, valid_blueprint, valid_stage, Blueprint, BlueprintModel,
    Stage, StageModel,
};
use crate::document::{
    law_lookup_finds, lemma_rank, lookup, print_value, rank, sorted, valid, value_text, Doc, Entries,
    Item, Table,
};
use crate::mode::CompilationMode;
use crate::text::{
    contains, decimal, holds_substring, key_lt, law_signed_decimal, render_i64, render_u64, signed_decimal, text_of,
    texts_of,
};

verus! {

/// The head of the manifest of a stage.
pub const TOML: &'static str = "\n[package]\nauthors = [\"The Rust Project Developers\"]\nname = \"sysroot\"\nversion = \"0.0.0\"\n";

/// The directory in which a stage is built.
#[derive(Debug)]
pub enum Workspace {
    /// This directory in the directory of the target, which is kept between builds. What is missing
    /// of it is made.
    Kept { path: Vec<String> },
    /// A new temporary directory, which is removed after the build unless it is to be kept.
    Temporary { keep: bool },
}

/// An argument of a command.
#[derive(Debug)]
pub enum Arg {
    Text(String),
    /// The path of the manifest of the stage.
    ManifestPath,
}

/// A change to the environment of a command.
#[derive(Debug)]
pub enum Change {
    /// Gives a variable a value.
    Assign { name: String, value: String },
    /// Gives a variable the path of the directory of the target's specification file.
    AssignSpecificationDirectory { name: String },
    /// Removes a variable.
    Remove { name: String },
}

/// A call of a program.
#[derive(Debug)]
pub struct Invocation {
    pub program: String,
    /// What changes in the environment that is passed on, in order.
    pub environment: Vec<Change>,
    pub args: Vec<Arg>,
    /// Tells the user of the call.
    pub verbose: bool,
}

/// A step of a build. Directories are given as the components of a relative path.
#[derive(Debug)]
pub enum Step {
    /// Empties the directory of the target, but for its lock and the entries of these names.
    Clear { keep: Vec<String> },
    /// Makes a directory in the directory of the target.
    MakeDirectory { name: String },
    /// Copies this file of a directory of the compiler's sysroot to a directory of the target.
    CopyFile { from: Vec<String>, name: String, to: String },
    /// Copies a directory of the compiler's sysroot to a directory of the target.
    CopyDirectory { from: Vec<String>, to: String },
    /// Goes to the directory in which a stage is built.
    OpenWorkspace { workspace: Workspace },
    /// Writes the manifest of the stage.
    WriteManifest { text: String },
    /// Calls cargo for the manifest of the stage.
    RunCargo { invocation: Invocation },
    /// Copies a directory of the workspace to a directory of the target.
    CollectArtifacts { from: Vec<String>, to: String },
    /// Writes the hash file of the target.
    WriteHash { text: String },
}

/// What a workspace says.
pub enum WorkspaceModel {
    Kept { path: Seq<Seq<char>> },
    Temporary { keep: bool },
}

/// What an argument says.
pub enum ArgModel {
    Text(Seq<char>),
    ManifestPath,
}

/// What a change to an environment says.
pub enum ChangeModel {
    Assign { name: Seq<char>, value: Seq<char> },
    AssignSpecificationDirectory { name: Seq<char> },
    Remove { name: Seq<char> },
}

/// What a call of a program says.
pub struct InvocationModel {
    pub program: Seq<char>,
    pub environment: Seq<ChangeModel>,
    pub args: Seq<ArgModel>,
    pub verbose: bool,
}

/// What a step says.
pub enum StepModel {
    Clear { keep: Seq<Seq<char>> },
    MakeDirectory { name: Seq<char> },
    CopyFile { from: Seq<Seq<char>>, name: Seq<char>, to: Seq<char> },
    CopyDirectory { from: Seq<Seq<char>>, to: Seq<char> },
    OpenWorkspace { workspace: WorkspaceModel },
    WriteManifest { text: Seq<char> },
    RunCargo { invocation: InvocationModel },
    CollectArtifacts { from: Seq<Seq<char>>, to: Seq<char> },
    WriteHash { text: Seq<char> },
}

impl View for Workspace {
    type V = WorkspaceModel;

    open spec fn view(&self) -> WorkspaceModel {
        match self {
            Workspace::Kept { path } => WorkspaceModel::Kept { path: texts_of(path@) },
            Workspace::Temporary { keep } => WorkspaceModel::Temporary { keep: *keep },
        }
    }
}

impl View for Arg {
    type V = ArgModel;

    open spec fn view(&self) -> ArgModel {
        match self {
            Arg::Text(text) => ArgModel::Text(text@),
            Arg::ManifestPath => ArgModel::ManifestPath,
        }
    }
}

impl View for Change {
    type V = ChangeModel;

    open spec fn view(&self) -> ChangeModel {
        match self {
            Change::Assign { name, value } => ChangeModel::Assign { name: name@, value: value@ },
            Change::AssignSpecificationDirectory { name } => ChangeModel::AssignSpecificationDirectory {
                name: name@,
            },
            Change::Remove { name } => ChangeModel::Remove { name: name@ },
        }
    }
}

impl View for Invocation {
    type V = InvocationModel;

    open spec fn view(&self) -> InvocationModel {
        InvocationModel {
            program: self.program@,
            environment: changes_of(self.environment@),
            args: args_of(self.args@),
            verbose: self.verbose,
        }
    }
}

impl View for Step {
    type V = StepModel;

    open spec fn view(&self) -> StepModel {
        match self {
            Step::Clear { keep } => StepModel::Clear { keep: texts_of(keep@) },
            Step::MakeDirectory { name } => StepModel::MakeDirectory { name: name@ },
            Step::CopyFile { from, name, to } => StepModel::CopyFile {
                from: texts_of(from@),
                name: name@,
                to: to@,
            },
            Step::CopyDirectory { from, to } => StepModel::CopyDirectory {
                from: texts_of(from@),
                to: to@,
            },
            Step::OpenWorkspace { workspace } => StepModel::OpenWorkspace {
                workspace: workspace@,
            },
            Step::WriteManifest { text } => StepModel::WriteManifest { text: text@ },
            Step::RunCargo { invocation } => StepModel::RunCargo { invocation: invocation@ },
            Step::CollectArtifacts { from, to } => StepModel::CollectArtifacts {
                from: texts_of(from@),
                to: to@,
            },
            Step::WriteHash { text } => StepModel::WriteHash { text: text@ },
        }
    }
}

/// What a sequence of arguments says.
pub open spec fn args_of(args: Seq<Arg>) -> Seq<ArgModel> {
    Seq::new(args.len(), |i: int| args[i]@)
}

/// What a sequence of changes says.
pub open spec fn changes_of(changes: Seq<Change>) -> Seq<ChangeModel> {
    Seq::new(changes.len(), |i: int| changes[i]@)
}

/// What a sequence of steps says.
pub open spec fn steps_of(steps: Seq<Step>) -> Seq<StepModel> {
    Seq::new(steps.len(), |i: int| steps[i]@)
}

/// What a build depends on besides the blueprint.
#[derive(Debug)]
pub struct Settings {
    /// The compiler flags.
    pub flags: String,
    /// The profile of the project, as it stands in a manifest.
    pub profile: Option<String>,
    /// Builds without optimizations.
    pub dev: bool,
    /// Keeps temporary directories.
    pub keep_temp: bool,
    /// The user says where target specifications are found.
    pub target_path_set: bool,
    pub verbose: bool,
}

/// The name of the cargo profile in which a sysroot is built.
pub open spec fn profile_name(dev: bool) -> Seq<char> {
    if dev {
        "debug"@
    } else {
        "release"@
    }
}

/// The name of the cargo profile in which a sysroot is built.
pub fn profile(dev: bool) -> (r: &'static str)
    ensures
        r@ == profile_name(dev),
{
    if dev {
        "debug"
    } else {
        "release"
    }
}

/// The object files that programs for windows-gnu targets are linked with.
pub open spec fn startup_objects() -> Seq<Seq<char>> {
    seq!["rsbegin.o"@, "rsend.o"@, "crt2.o"@, "dllcrt2.o"@]
}

/// The directory of the compiler's sysroot that holds the libraries of a target.
pub open spec fn library_path(triple: Seq<char>) -> Seq<Seq<char>> {
    seq!["lib"@, "rustlib"@, triple, "lib"@]
}

/// The copies of the startup objects, which only windows-gnu targets need.
pub open spec fn object_steps(triple: Seq<char>) -> Seq<StepModel> {
    if holds_substring(triple, "pc-windows-gnu"@) {
        Seq::new(
            startup_objects().len(),
            |i: int|
                StepModel::CopyFile {
                    from: library_path(triple),
                    name: startup_objects()[i],
                    to: "lib"@,
                },
        )
    } else {
        Seq::empty()
    }
}

/// The tables of the manifest of a stage.
pub open spec fn manifest_tables(dependencies: Entries, patch: Option<Entries>) -> Entries {
    let tables = seq![("dependencies"@, Doc::Table(dependencies))];
    match patch {
        Some(patch) => tables.push(("patch"@, Doc::Table(patch))),
        None => tables,
    }
}

/// The manifest of a stage.
pub open spec fn manifest_of(
    dependencies: Entries,
    patch: Option<Entries>,
    profile: Option<Seq<char>>,
) -> Seq<char> {
    assembled(value_text(Doc::Table(manifest_tables(dependencies, patch))), profile)
}

/// A manifest with these printed tables: they stand between the head and the profile.
pub open spec fn assembled(tables: Seq<char>, profile: Option<Seq<char>>) -> Seq<char> {
    TOML@ + tables + match profile {
        Some(text) => text,
        None => Seq::empty(),
    }
}

/// The directory in which a stage is built.
pub open spec fn workspace_of(number: i64, track_sysroot: bool, keep_temp: bool) -> WorkspaceModel {
    if track_sysroot {
        WorkspaceModel::Kept { path: seq!["build"@, "stage"@ + signed_decimal(number as int)] }
    } else {
        WorkspaceModel::Temporary { keep: keep_temp }
    }
}

/// The compiler flags of a stage. Items that are not marked are forced to be unstable, unless the
/// staged API is disabled.
pub open spec fn stage_flags(flags: Seq<char>, disable_staged_api: bool) -> Seq<char> {
    if disable_staged_api {
        flags
    } else {
        flags + " -Z force-unstable-if-unmarked"@
    }
}

/// The arguments with which cargo compiles a crate.
pub open spec fn cargo_args(
    krate: Seq<char>,
    triple: Seq<char>,
    dev: bool,
    verbose: bool,
) -> Seq<ArgModel> {
    let start = seq![ArgModel::Text("build"@)];
    let profile = if dev {
        start
    } else {
        start.push(ArgModel::Text("--release"@))
    };
    let target = profile + seq![
        ArgModel::Text("--manifest-path"@),
        ArgModel::ManifestPath,
        ArgModel::Text("--target"@),
        ArgModel::Text(triple),
    ];
    let loud = if verbose {
        target.push(ArgModel::Text("-v"@))
    } else {
        target
    };
    loud + seq![ArgModel::Text("-p"@), ArgModel::Text(krate)]
}

/// The changes to the environment in which cargo compiles a crate. Cargo may call the compiler in
/// another directory, where it would not find the target's specification file; so the directory of
/// that file is named, unless the user says where such files are found.
pub open spec fn cargo_environment(flags: Seq<char>, set_target_path: bool) -> Seq<ChangeModel> {
    let changes = seq![
        ChangeModel::Assign { name: "RUSTFLAGS"@, value: flags },
        ChangeModel::Remove { name: "CARGO_TARGET_DIR"@ },
    ];
    if set_target_path {
        changes.push(ChangeModel::AssignSpecificationDirectory { name: "RUST_TARGET_PATH"@ })
    } else {
        changes
    }
}

/// The call of cargo that compiles a crate of a stage.
pub open spec fn invocation_of(
    krate: Seq<char>,
    disable_staged_api: bool,
    mode: CompilationMode,
    settings: Settings,
) -> InvocationModel {
    InvocationModel {
        program: "cargo"@,
        environment: cargo_environment(
            stage_flags(settings.flags@, disable_staged_api),
            !settings.target_path_set && mode.spec_has_specification(),
        ),
        args: cargo_args(krate, mode.spec_triple(), settings.dev, settings.verbose),
        verbose: settings.verbose,
    }
}

/// The calls of cargo that compile the crates of a stage.
pub open spec fn cargo_steps(
    stage: StageModel,
    mode: CompilationMode,
    settings: Settings,
) -> Seq<StepModel> {
    Seq::new(
        stage.crates.len(),
        |i: int|
            StepModel::RunCargo {
                invocation: invocation_of(
                    stage.crates[i],
                    stage.disable_staged_api,
                    mode,
                    settings,
                ),
            },
    )
}

/// The directory of a workspace in which cargo leaves the libraries of a target.
pub open spec fn artifacts_path(triple: Seq<char>, dev: bool) -> Seq<Seq<char>> {
    seq!["target"@, triple, profile_name(dev), "deps"@]
}

/// The steps of a stage.
pub open spec fn stage_steps(
    number: i64,
    stage: StageModel,
    track_sysroot: bool,
    mode: CompilationMode,
    settings: Settings,
) -> Seq<StepModel> {
    seq![
        StepModel::OpenWorkspace {
            workspace: workspace_of(number, track_sysroot, settings.keep_temp),
        },
        StepModel::WriteManifest {
            text: manifest_of(stage.dependencies, stage.patch, text_of(settings.profile)),
        },
    ] + cargo_steps(stage, mode, settings) + seq![
        StepModel::CollectArtifacts {
            from: artifacts_path(mode.spec_triple(), settings.dev),
            to: "lib"@,
        },
    ]
}

/// The steps of these stages, one after the other.
pub open spec fn all_stage_steps(
    blueprint: BlueprintModel,
    numbers: Seq<i64>,
    mode: CompilationMode,
    settings: Settings,
) -> Seq<StepModel>
    decreases numbers.len(),
{
    if numbers.len() == 0 {
        Seq::empty()
    } else {
        all_stage_steps(blueprint, numbers.drop_last(), mode, settings) + stage_steps(
            numbers.last(),
            blueprint.stages[numbers.last()],
            blueprint.track_sysroot,
            mode,
            settings,
        )
    }
}

/// The steps of a build: what the target's directory held goes, all stages are built in the order
/// of their numbers, and the hash comes last.
pub open spec fn build_steps(
    blueprint: BlueprintModel,
    mode: CompilationMode,
    settings: Settings,
    hash: u64,
) -> Seq<StepModel> {
    seq![
        StepModel::Clear { keep: seq!["build"@] },
        StepModel::MakeDirectory { name: "lib"@ },
    ] + object_steps(mode.spec_triple()) + all_stage_steps(
        blueprint,
        in_order(blueprint.stages.dom()),
        mode,
        settings,
    ) + seq![StepModel::WriteHash { text: decimal(hash as nat) }]
}

fn strings(texts: &[&str]) -> (r: Vec<String>)
    ensures
        texts_of(r@) == Seq::new(texts@.len(), |i: int| texts@[i]@),
{
    let mut r: Vec<String> = Vec::new();
    let mut i: usize = 0;
    while i < texts.len()
        invariant
            i <= texts@.len(),
            r@.len() == i,
            forall|k: int| 0 <= k < i ==> (#[trigger] r@[k])@ == texts@[k]@,
        decreases texts@.len() - i,
    {
        r.push(texts[i].to_owned());
        i = i + 1;
    }
    assert(texts_of(r@) =~= Seq::new(texts@.len(), |i: int| texts@[i]@));
    r
}

/// What an optional table holds.
pub open spec fn optional_entries(table: Option<Table>) -> Option<Entries> {
    match table {
        Some(t) => Some(t@),
        None => None,
    }
}

/// Writes the manifest of a stage.
pub fn manifest(dependencies: Table, patch: Option<Table>, profile: &Option<String>) -> (r: String)
    requires
        valid(Doc::Table(dependencies@)),
        patch matches Some(table) ==> valid(Doc::Table(table@)),
    ensures
        r@ == manifest_of(dependencies@, optional_entries(patch), text_of(*profile)),
{
    let ghost goal = manifest_tables(dependencies@, optional_entries(patch));
    let mut tables: Table = Table::new();
    proof {
        reveal_strlit("dependencies");
        reveal_strlit("patch");
        reveal_with_fuel(rank, 2);
        assert(key_lt("dependencies"@, "patch"@));
        assert("dependencies"@ != "patch"@);
    }
    tables.insert("dependencies".to_owned(), Item::Table(dependencies));
    if let Some(patch) = patch {
        tables.insert("patch".to_owned(), Item::Table(patch));
    }
    assert(tables@ =~= goal);
    let text: String = print_value(&Item::Table(tables));
    assemble(text.as_str(), profile)
}

/// Puts a manifest together from its printed tables.
pub fn assemble(tables: &str, profile: &Option<String>) -> (r: String)
    ensures
        r@ == assembled(tables@, text_of(*profile)),
{
    let mut r: String = TOML.to_owned();
    r.append(tables);
    if let Some(profile) = profile {
        r.append(profile.as_str());
    }
    assert(r@ =~= assembled(tables@, text_of(*profile)));
    r
}

/// How a manifest gets onto disk.
#[derive(Debug, Clone, Copy, PartialEq, Eq, Structural)]
pub enum Write {
    /// Write it, and the empty library beside it.
    Create,
    /// Write it in place of another one.
    Replace,
    /// Leave it as it is.
    Keep,
}

/// How a manifest gets onto disk. One that is there already is only touched if it differs; one
/// that cannot be read passes for an empty one.
pub open spec fn write_of(exists: bool, contents: Option<Seq<char>>, text: Seq<char>) -> Write {
    let current = match contents {
        Some(current) => current,
        None => Seq::empty(),
    };
    if !exists {
        Write::Create
    } else if current != text {
        Write::Replace
    } else {
        Write::Keep
    }
}

/// Decides how a manifest gets onto disk: whether there is one already, and what it holds if it
/// can be read.
pub fn manifest_write(exists: bool, contents: Option<String>, text: &String) -> (r: Write)
    ensures
        r == write_of(exists, text_of(contents), text@),
{
    let current: String = match contents {
        Some(current) => current,
        None => String::new(),
    };
    if !exists {
        Write::Create
    } else if current.eq(text) {
        Write::Keep
    } else {
        Write::Replace
    }
}

/// A manifest that was written is not written again.
pub proof fn law_written_manifest_is_kept(text: Seq<char>)
    ensures
        write_of(true, Some(text), text) == Write::Keep,
{
}

fn cargo_arguments(krate: &str, triple: &str, dev: bool, verbose: bool) -> (r: Vec<Arg>)
    ensures
        args_of(r@) == cargo_args(krate@, triple@, dev, verbose),
{
    let mut r: Vec<Arg> = Vec::new();
    r.push(Arg::Text("build".to_owned()));
    if !dev {
        r.push(Arg::Text("--release".to_owned()));
    }
    r.push(Arg::Text("--manifest-path".to_owned()));
    r.push(Arg::ManifestPath);
    r.push(Arg::Text("--target".to_owned()));
    r.push(Arg::Text(triple.to_owned()));
    if verbose {
        r.push(Arg::Text("-v".to_owned()));
    }
    r.push(Arg::Text("-p".to_owned()));
    r.push(Arg::Text(krate.to_owned()));
    assert(args_of(r@) =~= cargo_args(krate@, triple@, dev, verbose));
    r
}

fn environment_changes(flags: String, set_target_path: bool) -> (r: Vec<Change>)
    ensures
        changes_of(r@) == cargo_environment(flags@, set_target_path),
{
    let mut r: Vec<Change> = Vec::new();
    r.push(Change::Assign { name: "RUSTFLAGS".to_owned(), value: flags });
    r.push(Change::Remove { name: "CARGO_TARGET_DIR".to_owned() });
    if set_target_path {
        r.push(Change::AssignSpecificationDirectory { name: "RUST_TARGET_PATH".to_owned() });
    }
    assert(changes_of(r@) =~= cargo_environment(flags@, set_target_path));
    r
}

/// Plans the call of cargo that compiles a crate.
pub fn plan_invocation(
    krate: &str,
    disable_staged_api: bool,
    mode: &CompilationMode,
    settings: &Settings,
) -> (r: Invocation)
    ensures
        r@ == invocation_of(krate@, disable_staged_api, *mode, *settings),
{
    let mut flags: String = settings.flags.clone();
    if !disable_staged_api {
        flags.append(" -Z force-unstable-if-unmarked");
    }
    Invocation {
        program: "cargo".to_owned(),
        environment: environment_changes(
            flags,
            !settings.target_path_set && mode.has_specification(),
        ),
        args: cargo_arguments(krate, mode.triple(), settings.dev, settings.verbose),
        verbose: settings.verbose,
    }
}

fn plan_stage(
    steps: &mut Vec<Step>,
    number: i64,
    stage: Stage,
    track_sysroot: bool,
    mode: &CompilationMode,
    settings: &Settings,
)
    requires
        valid_stage(stage@),
    ensures
        steps_of(final(steps)@) == steps_of(old(steps)@) + stage_steps(
            number,
            stage@,
            track_sysroot,
            *mode,
            *settings,
        ),
{
    let ghost model = stage@;
    let ghost before = steps_of(steps@);
    let workspace: Workspace = if track_sysroot {
        let mut name: String = "stage".to_owned();
        let digits: String = render_i64(number);
        name.append(digits.as_str());
        let path: Vec<String> = strings(&["build", name.as_str()]);
        assert(texts_of(path@) =~= seq!["build"@, name@]);
        Workspace::Kept { path }
    } else {
        Workspace::Temporary { keep: settings.keep_temp }
    };
    steps.push(Step::OpenWorkspace { workspace });
    let text: String = manifest(stage.dependencies, stage.patch, &settings.profile);
    steps.push(Step::WriteManifest { text });
    let disabled: bool = stage.stage_options.disable_staged_api;
    let ghost head = seq![
        StepModel::OpenWorkspace {
            workspace: workspace_of(number, track_sysroot, settings.keep_temp),
        },
        StepModel::WriteManifest {
            text: manifest_of(model.dependencies, model.patch, text_of(settings.profile)),
        },
    ];
    let ghost calls = cargo_steps(model, *mode, *settings);
    assert(steps_of(steps@) =~= before + head + calls.take(0));
    let mut i: usize = 0;
    while i < stage.crates.len()
        invariant
            i <= stage.crates@.len(),
            model.crates == texts_of(stage.crates@),
            model.disable_staged_api == disabled,
            calls == cargo_steps(model, *mode, *settings),
            steps_of(steps@) == before + head + calls.take(i as int),
        decreases stage.crates@.len() - i,
    {
        let invocation: Invocation = plan_invocation(
            stage.crates[i].as_str(),
            disabled,
            mode,
            settings,
        );
        assert(invocation@ == invocation_of(model.crates[i as int], disabled, *mode, *settings));
        let ghost old_steps = steps@;
        steps.push(Step::RunCargo { invocation });
        assert(steps_of(steps@) =~= steps_of(old_steps).push(calls[i as int]));
        assert(calls.take(i + 1) =~= calls.take(i as int).push(calls[i as int]));
        assert(steps_of(steps@) =~= before + head + calls.take(i + 1));
        i = i + 1;
    }
    assert(calls.take(i as int) =~= calls);
    let from: Vec<String> = strings(&["target", mode.triple(), profile(settings.dev), "deps"]);
    assert(texts_of(from@) =~= artifacts_path(mode.spec_triple(), settings.dev));
    let ghost old_steps = steps@;
    steps.push(Step::CollectArtifacts { from, to: "lib".to_owned() });
    assert(steps_of(steps@) =~= steps_of(old_steps).push(
        StepModel::CollectArtifacts {
            from: artifacts_path(mode.spec_triple(), settings.dev),
            to: "lib"@,
        },
    ));
    assert(steps_of(steps@) =~= before + stage_steps(
        number,
        model,
        track_sysroot,
        *mode,
        *settings,
    ));
}

/// Plans the build of a sysroot.
pub fn build(
    mode: &CompilationMode,
    blueprint: Blueprint,
    settings: &Settings,
    hash: u64,
) -> (r: Vec<Step>)
    requires
        valid_blueprint(blueprint@),
    ensures
        steps_of(r@) == build_steps(blueprint@, *mode, *settings, hash),
{
    let ghost model = blueprint@;
    let triple: &str = mode.triple();
    let mut steps: Vec<Step> = Vec::new();
    let keep: Vec<String> = strings(&["build"]);
    assert(texts_of(keep@) =~= seq!["build"@]);
    steps.push(Step::Clear { keep });
    steps.push(Step::MakeDirectory { name: "lib".to_owned() });
    let ghost head = seq![
        StepModel::Clear { keep: seq!["build"@] },
        StepModel::MakeDirectory { name: "lib"@ },
    ];
    assert(steps_of(steps@) =~= head);
    if contains(triple, "pc-windows-gnu") {
        let names: Vec<String> = strings(&["rsbegin.o", "rsend.o", "crt2.o", "dllcrt2.o"]);
        assert(texts_of(names@) =~= startup_objects());
        let ghost objects = object_steps(triple@);
        assert(steps_of(steps@) =~= head + objects.take(0));
        let mut i: usize = 0;
        while i < names.len()
            invariant
                i <= names@.len(),
                texts_of(names@) == startup_objects(),
                triple@ == mode.spec_triple(),
                holds_substring(triple@, "pc-windows-gnu"@),
                objects == object_steps(triple@),
                steps_of(steps@) == head + objects.take(i as int),
            decreases names@.len() - i,
        {
            let from: Vec<String> = strings(&["lib", "rustlib", triple, "lib"]);
            assert(texts_of(from@) =~= library_path(triple@));
            let name: String = names[i].clone();
            assert(name@ == texts_of(names@)[i as int]);
            let ghost old_steps = steps@;
            steps.push(Step::CopyFile { from, name, to: "lib".to_owned() });
            assert(steps_of(steps@) =~= steps_of(old_steps).push(objects[i as int]));
            assert(steps_of(steps@) =~= head + objects.take(i + 1));
            i = i + 1;
        }
        assert(texts_of(names@).len() == names@.len());
        assert(objects.take(i as int) =~= objects);
    }
    let ghost start = head + object_steps(triple@);
    assert(steps_of(steps@) =~= start);
    let numbers: Vec<i64> = blueprint.stage_numbers();
    let track_sysroot: bool = blueprint.track_sysroot;
    let mut stages: BTreeMap<i64, Stage> = blueprint.stages;
    let mut i: usize = 0;
    assert forall|k: int| 0 <= k < numbers@.len() implies stages@.contains_key(
        #[trigger] numbers@[k],
    ) && stages@[numbers@[k]]@ == model.stages[numbers@[k]] by {
        assert(numbers@.to_set().contains(numbers@[k]));
        assert(model.stages.contains_key(numbers@[k]));
    }
    assert(steps_of(steps@) =~= start + all_stage_steps(
        model,
        numbers@.take(0),
        *mode,
        *settings,
    ));
    while i < numbers.len()
        invariant
            i <= numbers@.len(),
            model.track_sysroot == track_sysroot,
            valid_blueprint(model),
            lists(numbers@, model.stages.dom()),
            forall|k: int|
                i <= k < numbers@.len() ==> stages@.contains_key(#[trigger] numbers@[k])
                    && stages@[numbers@[k]]@ == model.stages[numbers@[k]],
            steps_of(steps@) == start + all_stage_steps(
                model,
                numbers@.take(i as int),
                *mode,
                *settings,
            ),
        decreases numbers@.len() - i,
    {
        let n: i64 = numbers[i];
        assert(numbers@.to_set().contains(n));
        assert(model.stages.contains_key(n));
        assert(valid_stage(model.stages[n]));
        if let Some(stage) = stages.remove(&n) {
            assert(stage@ == model.stages[n]);
            plan_stage(&mut steps, n, stage, track_sysroot, mode, settings);
            assert(numbers@.take(i + 1).drop_last() =~= numbers@.take(i as int));
            assert(numbers@.take(i + 1).last() == n);
            assert(steps_of(steps@) =~= start + all_stage_steps(
                model,
                numbers@.take(i + 1),
                *mode,
                *settings,
            ));
        }
        i = i + 1;
    }
    assert(numbers@.take(i as int) =~= numbers@);
    let ghost old_steps = steps@;
    steps.push(Step::WriteHash { text: render_u64(hash) });
    assert(steps_of(steps@) =~= steps_of(old_steps).push(
        StepModel::WriteHash { text: decimal(hash as nat) },
    ));
    assert(steps_of(steps@) =~= build_steps(model, *mode, *settings, hash));
    steps
}

/// The steps that copy the host's libraries and programs into its sysroot.
pub open spec fn host_steps(host: Seq<char>, hash: Seq<char>) -> Seq<StepModel> {
    seq![
        StepModel::Clear { keep: Seq::empty() },
        StepModel::MakeDirectory { name: "lib"@ },
        StepModel::CopyDirectory { from: library_path(host), to: "lib"@ },
        StepModel::MakeDirectory { name: "bin"@ },
        StepModel::CopyDirectory {
            from: seq!["lib"@, "rustlib"@, host, "bin"@],
            to: "bin"@,
        },
        StepModel::WriteHash { text: hash },
    ]
}

/// Plans the copy of the host's libraries and programs into its sysroot.
pub fn plan_host(host: &str, hash: &str) -> (r: Vec<Step>)
    ensures
        steps_of(r@) == host_steps(host@, hash@),
{
    let libraries: Vec<String> = strings(&["lib", "rustlib", host, "lib"]);
    let programs: Vec<String> = strings(&["lib", "rustlib", host, "bin"]);
    assert(texts_of(libraries@) =~= library_path(host@));
    assert(texts_of(programs@) =~= seq!["lib"@, "rustlib"@, host@, "bin"@]);
    let keep: Vec<String> = Vec::new();
    assert(texts_of(keep@) =~= Seq::empty());
    let mut r: Vec<Step> = Vec::new();
    r.push(Step::Clear { keep });
    r.push(Step::MakeDirectory { name: "lib".to_owned() });
    r.push(Step::CopyDirectory { from: libraries, to: "lib".to_owned() });
    r.push(Step::MakeDirectory { name: "bin".to_owned() });
    r.push(Step::CopyDirectory { from: programs, to: "bin".to_owned() });
    r.push(Step::WriteHash { text: hash.to_owned() });
    assert(steps_of(r@) =~= host_steps(host@, hash@));
    r
}

/// An environment after changes; `directory` is that of the target's specification file.
pub open spec fn changed(
    environment: Map<Seq<char>, Seq<char>>,
    changes: Seq<ChangeModel>,
    directory: Seq<char>,
) -> Map<Seq<char>, Seq<char>>
    decreases changes.len(),
{
    if changes.len() == 0 {
        environment
    } else {
        let front = changed(environment, changes.drop_last(), directory);
        match changes.last() {
            ChangeModel::Assign { name, value } => front.insert(name, value),
            ChangeModel::AssignSpecificationDirectory { name } => front.insert(name, directory),
            ChangeModel::Remove { name } => front.remove(name),
        }
    }
}

/// Cargo compiles a crate with the flags of its stage in `RUSTFLAGS` and without
/// `CARGO_TARGET_DIR`. `RUST_TARGET_PATH` stays as it is; where it is missing, it becomes the
/// directory of the target's specification file, if there is such a file. All else is passed on as
/// it was.
pub proof fn law_environment_of_cargo(
    krate: Seq<char>,
    disable_staged_api: bool,
    mode: CompilationMode,
    settings: Settings,
    environment: Map<Seq<char>, Seq<char>>,
    directory: Seq<char>,
    other: Seq<char>,
)
    requires
        settings.target_path_set == environment.contains_key("RUST_TARGET_PATH"@),
        other != "RUSTFLAGS"@,
        other != "CARGO_TARGET_DIR"@,
        other != "RUST_TARGET_PATH"@,
    ensures
        ({
            let call = invocation_of(krate, disable_staged_api, mode, settings);
            let after = changed(environment, call.environment, directory);
            &&& after.contains_key("RUSTFLAGS"@)
            &&& after["RUSTFLAGS"@] == stage_flags(settings.flags@, disable_staged_api)
            &&& !after.contains_key("CARGO_TARGET_DIR"@)
            &&& after.contains_key("RUST_TARGET_PATH"@) <==> environment.contains_key(
                "RUST_TARGET_PATH"@,
            ) || mode.spec_has_specification()
            &&& environment.contains_key("RUST_TARGET_PATH"@) ==> after["RUST_TARGET_PATH"@]
                == environment["RUST_TARGET_PATH"@]
            &&& !environment.contains_key("RUST_TARGET_PATH"@) && mode.spec_has_specification()
                ==> after["RUST_TARGET_PATH"@] == directory
            &&& after.contains_key(other) <==> environment.contains_key(other)
            &&& environment.contains_key(other) ==> after[other] == environment[other]
        }),
{
    reveal_strlit("RUSTFLAGS");
    reveal_strlit("CARGO_TARGET_DIR");
    reveal_strlit("RUST_TARGET_PATH");
    assert("RUSTFLAGS"@.len() != "RUST_TARGET_PATH"@.len());
    assert("RUSTFLAGS"@.len() != "CARGO_TARGET_DIR"@.len());
    assert("RUST_TARGET_PATH"@[0] != "CARGO_TARGET_DIR"@[0]);
    let flags = stage_flags(settings.flags@, disable_staged_api);
    let set = ChangeModel::Assign { name: "RUSTFLAGS"@, value: flags };
    let remove = ChangeModel::Remove { name: "CARGO_TARGET_DIR"@ };
    let changes = invocation_of(krate, disable_staged_api, mode, settings).environment;
    reveal_with_fuel(changed, 4);
    assert(seq![set, remove].drop_last() =~= seq![set]);
    assert(seq![set].drop_last() =~= Seq::empty());
    if changes.len() == 3 {
        assert(changes.drop_last() =~= seq![set, remove]);
    }
}

/// The crates that steps compile, in order. Each call of cargo names its crate in its last
/// argument.
pub open spec fn compiled(steps: Seq<StepModel>) -> Seq<Seq<char>>
    decreases steps.len(),
{
    if steps.len() == 0 {
        Seq::empty()
    } else {
        let front = compiled(steps.drop_last());
        match steps.last() {
            StepModel::RunCargo { invocation } => match invocation.args.last() {
                ArgModel::Text(krate) => front.push(krate),
                ArgModel::ManifestPath => front,
            },
            _ => front,
        }
    }
}

/// The crates of these stages, one stage after the other.
pub open spec fn crates_of(stages: Map<i64, StageModel>, numbers: Seq<i64>) -> Seq<Seq<char>>
    decreases numbers.len(),
{
    if numbers.len() == 0 {
        Seq::empty()
    } else {
        crates_of(stages, numbers.drop_last()) + stages[numbers.last()].crates
    }
}

proof fn lemma_compiled_append(a: Seq<StepModel>, b: Seq<StepModel>)
    ensures
        compiled(a + b) == compiled(a) + compiled(b),
    decreases b.len(),
{
    if b.len() == 0 {
        assert(a + b =~= a);
        assert(compiled(a) + compiled(b) =~= compiled(a));
    } else {
        lemma_compiled_append(a, b.drop_last());
        assert((a + b).drop_last() =~= a + b.drop_last());
        assert((a + b).last() == b.last());
        assert(compiled(a + b) =~= compiled(a) + compiled(b));
    }
}

proof fn lemma_compiled_none(steps: Seq<StepModel>)
    requires
        forall|i: int| 0 <= i < steps.len() ==> !(#[trigger] steps[i] is RunCargo),
    ensures
        compiled(steps) == Seq::<Seq<char>>::empty(),
    decreases steps.len(),
{
    if steps.len() > 0 {
        assert(steps[steps.len() - 1] == steps.last());
        assert forall|i: int| 0 <= i < steps.drop_last().len() implies !(
        #[trigger] steps.drop_last()[i] is RunCargo) by {
            assert(steps.drop_last()[i] == steps[i]);
        }
        lemma_compiled_none(steps.drop_last());
    }
}

proof fn lemma_compiled_crates(
    stage: StageModel,
    mode: CompilationMode,
    settings: Settings,
    n: int,
)
    requires
        0 <= n <= stage.crates.len(),
    ensures
        compiled(cargo_steps(stage, mode, settings).take(n)) == stage.crates.take(n),
    decreases n,
{
    let calls = cargo_steps(stage, mode, settings);
    if n > 0 {
        lemma_compiled_crates(stage, mode, settings, n - 1);
        assert(calls.take(n).drop_last() =~= calls.take(n - 1));
        assert(calls.take(n).last() == calls[n - 1]);
        assert(stage.crates.take(n) =~= stage.crates.take(n - 1).push(stage.crates[n - 1]));
    } else {
        assert(stage.crates.take(0) =~= Seq::empty());
    }
}

proof fn lemma_compiled_stages(
    blueprint: BlueprintModel,
    numbers: Seq<i64>,
    mode: CompilationMode,
    settings: Settings,
)
    ensures
        compiled(all_stage_steps(blueprint, numbers, mode, settings)) == crates_of(
            blueprint.stages,
            numbers,
        ),
    decreases numbers.len(),
{
    if numbers.len() > 0 {
        let n = numbers.last();
        let stage = blueprint.stages[n];
        lemma_compiled_stages(blueprint, numbers.drop_last(), mode, settings);
        let head = seq![
            StepModel::OpenWorkspace {
                workspace: workspace_of(n, blueprint.track_sysroot, settings.keep_temp),
            },
            StepModel::WriteManifest {
                text: manifest_of(stage.dependencies, stage.patch, text_of(settings.profile)),
            },
        ];
        let calls = cargo_steps(stage, mode, settings);
        let tail = seq![
            StepModel::CollectArtifacts {
                from: artifacts_path(mode.spec_triple(), settings.dev),
                to: "lib"@,
            },
        ];
        lemma_compiled_none(head);
        lemma_compiled_none(tail);
        lemma_compiled_crates(stage, mode, settings, stage.crates.len() as int);
        assert(calls.take(stage.crates.len() as int) =~= calls);
        assert(stage.crates.take(stage.crates.len() as int) =~= stage.crates);
        lemma_compiled_append(head, calls);
        lemma_compiled_append(head + calls, tail);
        lemma_compiled_append(
            all_stage_steps(blueprint, numbers.drop_last(), mode, settings),
            head + calls + tail,
        );
        assert(compiled(head + calls + tail) =~= stage.crates);
    }
}

/// A build compiles every crate of every stage once, in the order of the stages and of the crates
/// within each stage.
pub proof fn law_build_compiles_every_crate(
    blueprint: BlueprintModel,
    mode: CompilationMode,
    settings: Settings,
    hash: u64,
)
    ensures
        compiled(build_steps(blueprint, mode, settings, hash)) == crates_of(
            blueprint.stages,
            in_order(blueprint.stages.dom()),
        ),
{
    let numbers = in_order(blueprint.stages.dom());
    let head = seq![
        StepModel::Clear { keep: seq!["build"@] },
        StepModel::MakeDirectory { name: "lib"@ },
    ];
    let objects = object_steps(mode.spec_triple());
    let stages = all_stage_steps(blueprint, numbers, mode, settings);
    let tail = seq![StepModel::WriteHash { text: decimal(hash as nat) }];
    lemma_compiled_none(head + objects);
    lemma_compiled_none(tail);
    lemma_compiled_stages(blueprint, numbers, mode, settings);
    lemma_compiled_append(head + objects, stages);
    lemma_compiled_append(head + objects + stages, tail);
    assert(compiled(build_steps(blueprint, mode, settings, hash)) =~= crates_of(
        blueprint.stages,
        numbers,
    ));
}

proof fn lemma_stages_write_no_hash(
    blueprint: BlueprintModel,
    numbers: Seq<i64>,
    mode: CompilationMode,
    settings: Settings,
)
    ensures
        forall|i: int|
            0 <= i < all_stage_steps(blueprint, numbers, mode, settings).len() ==> !(
            #[trigger] all_stage_steps(blueprint, numbers, mode, settings)[i] is WriteHash),
    decreases numbers.len(),
{
    if numbers.len() > 0 {
        lemma_stages_write_no_hash(blueprint, numbers.drop_last(), mode, settings);
    }
}

/// The hash is written by the last step of a build, and by no other.
pub proof fn law_hash_is_written_last(
    blueprint: BlueprintModel,
    mode: CompilationMode,
    settings: Settings,
    hash: u64,
    i: int,
)
    requires
        0 <= i < build_steps(blueprint, mode, settings, hash).len(),
    ensures
        build_steps(blueprint, mode, settings, hash)[i] is WriteHash <==> i == build_steps(
            blueprint,
            mode,
            settings,
            hash,
        ).len() - 1,
        build_steps(blueprint, mode, settings, hash).last() == (StepModel::WriteHash {
            text: decimal(hash as nat),
        }),
{
    lemma_stages_write_no_hash(blueprint, in_order(blueprint.stages.dom()), mode, settings);
}

/// A sysroot is built in the release profile, unless it is built without optimizations.
pub proof fn law_profiles()
    ensures
        profile_name(false) == "release"@,
        profile_name(true) == "debug"@,
{
}

/// Cargo is told, in order: to build; to do so in the release profile, exactly if the sysroot is
/// not built without optimizations; the manifest; the target; to be verbose, exactly if the user
/// wants it; and the crate. Each of these is independent of the others.
pub proof fn law_arguments_of_cargo(
    krate: Seq<char>,
    disable_staged_api: bool,
    mode: CompilationMode,
    settings: Settings,
)
    ensures
        ({
            let call = invocation_of(krate, disable_staged_api, mode, settings);
            let args = call.args;
            let r: int = if settings.dev {
                0
            } else {
                1
            };
            let v: int = if settings.verbose {
                1
            } else {
                0
            };
            &&& call.program == "cargo"@
            &&& call.verbose == settings.verbose
            &&& args.len() == 7 + r + v
            &&& args[0] == ArgModel::Text("build"@)
            &&& !settings.dev ==> args[1] == ArgModel::Text("--release"@)
            &&& args[r + 1] == ArgModel::Text("--manifest-path"@)
            &&& args[r + 2] == ArgModel::ManifestPath
            &&& args[r + 3] == ArgModel::Text("--target"@)
            &&& args[r + 4] == ArgModel::Text(mode.spec_triple())
            &&& settings.verbose ==> args[r + 5] == ArgModel::Text("-v"@)
            &&& args[r + v + 5] == ArgModel::Text("-p"@)
            &&& args[r + v + 6] == ArgModel::Text(krate)
        }),
{
}

/// The profile in which cargo builds is the one from whose directory the libraries are collected:
/// `--release` is the only difference that the profile makes, and it is there exactly if they are
/// collected from `release`. Verbosity adds `-v` and changes nothing else.
pub proof fn law_profile_of_cargo(
    krate: Seq<char>,
    disable_staged_api: bool,
    mode: CompilationMode,
    settings: Settings,
)
    ensures
        ({
            let release = Settings { dev: false, ..settings };
            let debug = Settings { dev: true, ..settings };
            let loud = Settings { verbose: true, ..settings };
            let quiet = Settings { verbose: false, ..settings };
            let args = |s: Settings| invocation_of(krate, disable_staged_api, mode, s).args;
            &&& args(release) == args(debug).insert(1, ArgModel::Text("--release"@))
            &&& artifacts_path(mode.spec_triple(), false) == seq![
                "target"@,
                mode.spec_triple(),
                "release"@,
                "deps"@,
            ]
            &&& artifacts_path(mode.spec_triple(), true) == seq![
                "target"@,
                mode.spec_triple(),
                "debug"@,
                "deps"@,
            ]
            &&& args(loud) == args(quiet).insert(
                args(quiet).len() - 2,
                ArgModel::Text("-v"@),
            )
            &&& invocation_of(krate, disable_staged_api, mode, loud).environment == invocation_of(
                krate,
                disable_staged_api,
                mode,
                quiet,
            ).environment
            &&& invocation_of(krate, disable_staged_api, mode, release).environment
                == invocation_of(krate, disable_staged_api, mode, debug).environment
        }),
{
    let release = Settings { dev: false, ..settings };
    let debug = Settings { dev: true, ..settings };
    let loud = Settings { verbose: true, ..settings };
    let quiet = Settings { verbose: false, ..settings };
    let args = |s: Settings| invocation_of(krate, disable_staged_api, mode, s).args;
    assert(args(release) =~= args(debug).insert(1, ArgModel::Text("--release"@)));
    assert(args(loud) =~= args(quiet).insert(args(quiet).len() - 2, ArgModel::Text("-v"@)));
}

/// The flags of a stage start with the given ones. Unmarked items are forced to be unstable exactly
/// if the staged API is not disabled, and nothing else is added.
pub proof fn law_flags_of_stage(flags: Seq<char>)
    ensures
        stage_flags(flags, true) == flags,
        stage_flags(flags, false) == flags + " -Z force-unstable-if-unmarked"@,
{
}

/// What is printed into the manifest of a stage is a table that holds the dependencies and, exactly
/// if the stage is patched, the patch; it stands after the head. A profile adds its text at the end
/// and changes nothing else.
pub proof fn law_manifest(
    dependencies: Entries,
    patch: Option<Entries>,
    profile: Seq<char>,
    other: Seq<char>,
)
    requires
        other != "dependencies"@,
        other != "patch"@,
    ensures
        manifest_of(dependencies, patch, Some(profile)) == manifest_of(dependencies, patch, None)
            + profile,
        exists|tables: Entries|
            {
                &&& manifest_of(dependencies, patch, None) == TOML@ + #[trigger] value_text(
                    Doc::Table(tables),
                )
                &&& sorted(tables)
                &&& lookup(tables, "dependencies"@) == Some(Doc::Table(dependencies))
                &&& patch is None ==> lookup(tables, "patch"@) is None
                &&& patch matches Some(entries) ==> lookup(tables, "patch"@) == Some(
                    Doc::Table(entries),
                )
                &&& lookup(tables, other) is None
            },
{
    let tables = manifest_tables(dependencies, patch);
    let text = value_text(Doc::Table(tables));
    reveal_strlit("dependencies");
    reveal_strlit("patch");
    assert(key_lt("dependencies"@, "patch"@));
    assert(sorted(tables));
    law_lookup_finds(tables, 0);
    if patch is Some {
        law_lookup_finds(tables, 1);
    } else {
        lemma_lookup_among_keys(tables, "patch"@);
        assert("dependencies"@ != "patch"@);
    }
    lemma_lookup_among_keys(tables, other);
    assert(manifest_of(dependencies, patch, None) =~= TOML@ + text);
    assert(manifest_of(dependencies, patch, Some(profile)) =~= TOML@ + text + profile);
}

/// A key that is looked up with success is that of an entry.
proof fn lemma_lookup_among_keys(entries: Entries, key: Seq<char>)
    ensures
        lookup(entries, key) is Some ==> exists|i: int|
            0 <= i < entries.len() && (#[trigger] entries[i]).0 == key,
{
    lemma_rank(entries, key);
}

/// The directory of the target is emptied but for the kept directories. For a windows-gnu target,
/// native or not, the directory for libraries is made and then each of
/// the startup objects is copied there from the compiler's libraries of that target. No build copies
/// any other single file.
pub proof fn law_startup_objects(
    blueprint: BlueprintModel,
    mode: CompilationMode,
    settings: Settings,
    hash: u64,
    i: int,
)
    requires
        0 <= i < build_steps(blueprint, mode, settings, hash).len(),
    ensures
        ({
            let steps = build_steps(blueprint, mode, settings, hash);
            let triple = mode.spec_triple();
            let copy = |name: Seq<char>|
                StepModel::CopyFile {
                    from: seq!["lib"@, "rustlib"@, triple, "lib"@],
                    name,
                    to: "lib"@,
                };
            &&& steps[0] == (StepModel::Clear { keep: seq!["build"@] })
            &&& steps[1] == (StepModel::MakeDirectory { name: "lib"@ })
            &&& holds_substring(triple, "pc-windows-gnu"@) ==> {
                &&& steps.len() > 6
                &&& steps[2] == copy("rsbegin.o"@)
                &&& steps[3] == copy("rsend.o"@)
                &&& steps[4] == copy("crt2.o"@)
                &&& steps[5] == copy("dllcrt2.o"@)
                &&& steps[i] is CopyFile ==> 2 <= i <= 5
            }
            &&& !holds_substring(triple, "pc-windows-gnu"@) ==> !(steps[i] is CopyFile)
        }),
{
    lemma_stages_copy_no_file(blueprint, in_order(blueprint.stages.dom()), mode, settings);
    let steps = build_steps(blueprint, mode, settings, hash);
    let objects = object_steps(mode.spec_triple());
    let stages = all_stage_steps(
        blueprint,
        in_order(blueprint.stages.dom()),
        mode,
        settings,
    );
    if 2 + objects.len() <= i < 2 + objects.len() + stages.len() {
        assert(steps[i] == stages[i - 2 - objects.len()]);
    }
}

proof fn lemma_stages_copy_no_file(
    blueprint: BlueprintModel,
    numbers: Seq<i64>,
    mode: CompilationMode,
    settings: Settings,
)
    ensures
        forall|i: int|
            0 <= i < all_stage_steps(blueprint, numbers, mode, settings).len() ==> !(
            #[trigger] all_stage_steps(blueprint, numbers, mode, settings)[i] is CopyFile),
    decreases numbers.len(),
{
    if numbers.len() > 0 {
        lemma_stages_copy_no_file(blueprint, numbers.drop_last(), mode, settings);
    }
}

/// A build without stages empties the directory of the target but for the kept directories, makes
/// the directory for libraries, copies the startup objects that the target needs, and writes the
/// hash.
pub proof fn law_build_without_stages(
    blueprint: BlueprintModel,
    mode: CompilationMode,
    settings: Settings,
    hash: u64,
)
    requires
        blueprint.stages.dom() == Set::<i64>::empty(),
    ensures
        ({
            let steps = build_steps(blueprint, mode, settings, hash);
            &&& steps.len() == if holds_substring(mode.spec_triple(), "pc-windows-gnu"@) {
                7int
            } else {
                3
            }
            &&& steps[0] == (StepModel::Clear { keep: seq!["build"@] })
            &&& steps[1] == (StepModel::MakeDirectory { name: "lib"@ })
            &&& steps.last() == (StepModel::WriteHash { text: decimal(hash as nat) })
        }),
{
    let numbers = in_order(blueprint.stages.dom());
    lemma_in_order_lists(blueprint.stages.dom());
    if numbers.len() > 0 {
        assert(numbers.to_set().contains(numbers[0]));
    }
}

/// A stage adds its steps to a build after those of all earlier stages and before the hash is
/// written, and changes no other step. It goes to its own directory, which is kept exactly if the
/// sysroot is tracked; writes its manifest; calls cargo once for each of its crates, in order and
/// with its own options; and collects the libraries of the profile that was built.
pub proof fn law_last_stage_of_build(
    blueprint: BlueprintModel,
    mode: CompilationMode,
    settings: Settings,
    hash: u64,
    n: i64,
    i: int,
)
    requires
        blueprint.stages.dom().finite(),
        blueprint.stages.contains_key(n),
        forall|m: i64| blueprint.stages.contains_key(m) ==> m <= n,
    ensures
        ({
            let rest = BlueprintModel { stages: blueprint.stages.remove(n), ..blueprint };
            let before = build_steps(rest, mode, settings, hash);
            let steps = build_steps(blueprint, mode, settings, hash);
            let stage = blueprint.stages[n];
            let start = before.len() - 1;
            let crates = stage.crates.len() as int;
            &&& steps.len() == before.len() + crates + 3
            &&& steps.take(start) == before.take(start)
            &&& steps.last() == before.last()
            &&& blueprint.track_sysroot ==> steps[start] == (StepModel::OpenWorkspace {
                workspace: WorkspaceModel::Kept {
                    path: seq!["build"@, "stage"@ + signed_decimal(n as int)],
                },
            })
            &&& !blueprint.track_sysroot ==> steps[start] == (StepModel::OpenWorkspace {
                workspace: WorkspaceModel::Temporary { keep: settings.keep_temp },
            })
            &&& steps[start + 1] == (StepModel::WriteManifest {
                text: manifest_of(stage.dependencies, stage.patch, text_of(settings.profile)),
            })
            &&& 0 <= i < crates ==> steps[start + 2 + i] == (StepModel::RunCargo {
                invocation: invocation_of(
                    stage.crates[i],
                    stage.disable_staged_api,
                    mode,
                    settings,
                ),
            })
            &&& steps[start + 2 + crates] == (StepModel::CollectArtifacts {
                from: seq![
                    "target"@,
                    mode.spec_triple(),
                    if settings.dev {
                        "debug"@
                    } else {
                        "release"@
                    },
                    "deps"@,
                ],
                to: "lib"@,
            })
        }),
{
    let dom = blueprint.stages.dom();
    let rest = BlueprintModel { stages: blueprint.stages.remove(n), ..blueprint };
    assert forall|m: i64| dom.contains(m) implies m <= n by {
        assert(blueprint.stages.contains_key(m));
    }
    lemma_in_order_last(dom, n);
    let front = in_order(dom.remove(n));
    lemma_in_order_lists(dom.remove(n));
    assert(rest.stages.dom() =~= dom.remove(n));
    assert(front.push(n).drop_last() =~= front);
    assert forall|k: int| 0 <= k < front.len() implies blueprint.stages[#[trigger] front[k]]
        == rest.stages[front[k]] by {
        assert(front.to_set().contains(front[k]));
    }
    lemma_same_stages_same_steps(blueprint, rest, front, mode, settings);
    let before = build_steps(rest, mode, settings, hash);
    let steps = build_steps(blueprint, mode, settings, hash);
    let start = before.len() - 1;
    assert(steps.take(start) =~= before.take(start));
}

proof fn lemma_same_stages_same_steps(
    a: BlueprintModel,
    b: BlueprintModel,
    numbers: Seq<i64>,
    mode: CompilationMode,
    settings: Settings,
)
    requires
        a.track_sysroot == b.track_sysroot,
        forall|i: int| 0 <= i < numbers.len() ==> a.stages[#[trigger] numbers[i]]
            == b.stages[numbers[i]],
    ensures
        all_stage_steps(a, numbers, mode, settings) == all_stage_steps(b, numbers, mode, settings),
    decreases numbers.len(),
{
    if numbers.len() > 0 {
        let front = numbers.drop_last();
        assert forall|i: int| 0 <= i < front.len() implies a.stages[#[trigger] front[i]]
            == b.stages[front[i]] by {
            assert(front[i] == numbers[i]);
        }
        lemma_same_stages_same_steps(a, b, front, mode, settings);
        assert(numbers[numbers.len() - 1] == numbers.last());
    }
}

/// No two stages of a tracked sysroot are built in the same directory, and all are built below the
/// one that a build does not clear.
pub proof fn law_stages_have_their_own_directories(m: i64, n: i64, keep_temp: bool)
    ensures
        workspace_of(m, true, keep_temp) == workspace_of(n, true, keep_temp) ==> m == n,
        workspace_of(n, true, keep_temp) matches WorkspaceModel::Kept { path } && path[0]
            == "build"@,
        workspace_of(n, false, keep_temp) == (WorkspaceModel::Temporary { keep: keep_temp }),
{
    if workspace_of(m, true, keep_temp) == workspace_of(n, true, keep_temp) {
        let a = seq!["build"@, "stage"@ + signed_decimal(m as int)];
        let b = seq!["build"@, "stage"@ + signed_decimal(n as int)];
        assert(a[1] == b[1]);
        let k = "stage"@.len() as int;
        assert(a[1].skip(k) =~= signed_decimal(m as int));
        assert(b[1].skip(k) =~= signed_decimal(n as int));
        law_signed_decimal(m as int, n as int);
    }
}

/// A manifest is made with its library exactly if there is none, and left alone exactly if what is
/// there is what is to be written. In the end it is there with the right text.
pub proof fn law_manifest_on_disk(exists: bool, contents: Option<Seq<char>>, text: Seq<char>)
    ensures
        write_of(exists, contents, text) == Write::Create <==> !exists,
        write_of(exists, contents, text) == Write::Keep <==> exists && (contents == Some(text)
            || contents is None && text.len() == 0),
{
    if contents is None && text.len() == 0 {
        assert(text =~= Seq::empty());
    }
}

/// The sysroot of the host is emptied; then its libraries and its programs are copied from the
/// compiler's sysroot, each to a directory that was made for it; and the commit is written last.
pub proof fn law_host_steps(host: Seq<char>, hash: Seq<char>, name: Seq<char>, i: int)
    requires
        name == "lib"@ && i == 1 || name == "bin"@ && i == 3,
    ensures
        ({
            let steps = host_steps(host, hash);
            &&& steps.len() == 6
            &&& steps[0] matches StepModel::Clear { keep } && keep.len() == 0
            &&& steps[i] == (StepModel::MakeDirectory { name })
            &&& steps[i + 1] == (StepModel::CopyDirectory {
                from: seq!["lib"@, "rustlib"@, host, name],
                to: name,
            })
            &&& steps[5] == (StepModel::WriteHash { text: hash })
        }),
{
}

/// A step says all that it is made of.
pub proof fn law_contents_of_steps(step: Step)
    ensures
        match step@ {
            StepModel::Clear { keep: k } => step matches Step::Clear { keep } && texts_of(keep@)
                == k,
            StepModel::MakeDirectory { name: n } => step matches Step::MakeDirectory { name }
                && name@ == n,
            StepModel::CopyFile { from: f, name: n, to: t } => step matches Step::CopyFile {
                from,
                name,
                to,
            } && texts_of(from@) == f && name@ == n && to@ == t,
            StepModel::CopyDirectory { from: f, to: t } => step matches Step::CopyDirectory {
                from,
                to,
            } && texts_of(from@) == f && to@ == t,
            StepModel::OpenWorkspace { workspace: WorkspaceModel::Kept { path: p } } => step matches
                Step::OpenWorkspace { workspace: Workspace::Kept { path } } && texts_of(path@) == p,
            StepModel::OpenWorkspace { workspace: WorkspaceModel::Temporary { keep: k } } =>
            step matches Step::OpenWorkspace { workspace: Workspace::Temporary { keep } } && keep
                == k,
            StepModel::WriteManifest { text: t } => step matches Step::WriteManifest { text }
                && text@ == t,
            StepModel::RunCargo { invocation: c } => step matches Step::RunCargo { invocation }
                && invocation@ == c,
            StepModel::CollectArtifacts { from: f, to: t } => step matches Step::CollectArtifacts {
                from,
                to,
            } && texts_of(from@) == f && to@ == t,
            StepModel::WriteHash { text: t } => step matches Step::WriteHash { text } && text@ == t,
        },
{
}

/// A call says all that it is made of, its changes and arguments one by one.
pub proof fn law_contents_of_calls(invocation: Invocation, i: int)
    ensures
        invocation@.program == invocation.program@,
        invocation@.verbose == invocation.verbose,
        invocation@.environment.len() == invocation.environment@.len(),
        invocation@.args.len() == invocation.args@.len(),
        0 <= i < invocation.environment@.len() ==> match invocation@.environment[i] {
            ChangeModel::Assign { name: n, value: v } => invocation.environment@[i] matches
                Change::Assign { name, value } && name@ == n && value@ == v,
            ChangeModel::AssignSpecificationDirectory { name: n } => invocation.environment@[i] matches
                Change::AssignSpecificationDirectory { name } && name@ == n,
            ChangeModel::Remove { name: n } => invocation.environment@[i] matches Change::Remove {
                name,
            } && name@ == n,
        },
        0 <= i < invocation.args@.len() ==> match invocation@.args[i] {
            ArgModel::Text(t) => invocation.args@[i] matches Arg::Text(text) && text@ == t,
            ArgModel::ManifestPath => invocation.args@[i] is ManifestPath,
        },
{
}

/// A patch holds what its table holds, if there is one.
pub proof fn law_contents_of_patch(table: Table)
    ensures
        optional_entries(Some(table)) == Some(table@),
        optional_entries(None) is None,
{
}

} // verus!
