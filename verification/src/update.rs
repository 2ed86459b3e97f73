//! What is done to bring a sysroot up to date.
use vstd::prelude::*;

use crate::blueprint::{valid_blueprint, Blueprint};
use crate::hash::{hash, hash_of, hashed_texts, old_hash, optional_texts, stored_hash};
use crate::mode::CompilationMode;
use crate::text::{decimal, law_decimal_round_trip, text_of, texts_of};

verus! {

/// What is to be done next.
#[derive(Debug, Clone, Copy, PartialEq, Eq, Structural)]
pub enum Task {
    /// Read the hash file of the target.
    ReadTargetHash,
    /// Build the sysroot of the target.
    Build,
    /// Read the hash file of the host.
    ReadHostHash,
    /// Copy the host's libraries and programs into its sysroot.
    SyncHost,
    /// Nothing: the sysroot is up to date.
    Done,
}

/// An update of a sysroot.
#[derive(Debug)]
pub struct Update {
    hash: u64,
    native: bool,
    host_hash: String,
    task: Task,
}

/// An update: the hash of the would-be sysroot, whether it is the host's, what the hash file of the
/// host is to hold, and what is to be done next.
pub struct UpdateModel {
    pub hash: u64,
    pub native: bool,
    pub host_hash: Seq<char>,
    pub task: Task,
}

impl View for Update {
    type V = UpdateModel;

    closed spec fn view(&self) -> UpdateModel {
        UpdateModel {
            hash: self.hash,
            native: self.native,
            host_hash: self.host_hash@,
            task: self.task,
        }
    }
}

/// An update before anything is done. A tracked sysroot is always recompiled.
pub open spec fn begun(
    track_sysroot: bool,
    hash: u64,
    native: bool,
    commit_hash: Option<Seq<char>>,
) -> UpdateModel {
    UpdateModel {
        hash,
        native,
        host_hash: match commit_hash {
            Some(text) => text,
            None => Seq::empty(),
        },
        task: if track_sysroot {
            Task::Build
        } else {
            Task::ReadTargetHash
        },
    }
}

/// What is to be done once the sysroot of the target is up to date.
pub open spec fn after_target(native: bool) -> Task {
    if native {
        Task::Done
    } else {
        Task::ReadHostHash
    }
}

/// What is to be done after the task of an update is done; `contents` is what a hash file holds, if
/// the task was to read one and it is there.
pub open spec fn next_task(update: UpdateModel, contents: Option<Seq<char>>) -> Task {
    match update.task {
        Task::ReadTargetHash => if stored_hash(contents) == Some(update.hash) {
            after_target(update.native)
        } else {
            Task::Build
        },
        Task::Build => after_target(update.native),
        Task::ReadHostHash => if contents == Some(update.host_hash) {
            Task::Done
        } else {
            Task::SyncHost
        },
        Task::SyncHost => Task::Done,
        Task::Done => Task::Done,
    }
}

/// Begins to bring a sysroot up to date. The hash of the would-be sysroot is that of the blueprint
/// and the given strings.
pub fn update(
    mode: &CompilationMode,
    blueprint: &Blueprint,
    rustflags: &Vec<String>,
    target: &Vec<String>,
    profile: &Option<Vec<String>>,
    commit_hash: &Option<String>,
) -> (r: Update)
    requires
        valid_blueprint(blueprint@),
    ensures
        r@ == begun(
            blueprint@.track_sysroot,
            hash_of(
                hashed_texts(
                    blueprint@,
                    texts_of(rustflags@),
                    texts_of(target@),
                    optional_texts(*profile),
                    text_of(*commit_hash),
                ),
            ),
            mode is Native,
            text_of(*commit_hash),
        ),
{
    let hash: u64 = hash(blueprint, rustflags, target, profile, commit_hash);
    Update::new(blueprint.track_sysroot, hash, mode.is_native(), commit_hash)
}

impl Update {
    /// Begins an update to the sysroot of a hash.
    pub fn new(track_sysroot: bool, hash: u64, native: bool, commit_hash: &Option<String>) -> (r:
        Update)
        ensures
            r@ == begun(track_sysroot, hash, native, text_of(*commit_hash)),
    {
        Update {
            hash,
            native,
            host_hash: match commit_hash {
                Some(text) => text.clone(),
                None => String::new(),
            },
            task: if track_sysroot {
                Task::Build
            } else {
                Task::ReadTargetHash
            },
        }
    }

    /// What is to be done next.
    pub fn task(&self) -> (r: Task)
        ensures
            r == self@.task,
    {
        self.task
    }

    /// The hash of the would-be sysroot of the target.
    pub fn hash(&self) -> (r: u64)
        ensures
            r == self@.hash,
    {
        self.hash
    }

    /// What the hash file of the host is to hold.
    pub fn host_hash(&self) -> (r: &str)
        ensures
            r@ == self@.host_hash,
    {
        self.host_hash.as_str()
    }

    /// Goes on after the task is done. If it was to read a hash file, `contents` is what the file
    /// holds, if it is there.
    pub fn advance(&mut self, contents: Option<String>)
        ensures
            final(self)@ == (UpdateModel {
                task: next_task(old(self)@, text_of(contents)),
                ..old(self)@
            }),
    {
        let after: Task = if self.native {
            Task::Done
        } else {
            Task::ReadHostHash
        };
        self.task =
        match self.task {
            Task::ReadTargetHash => match old_hash(&contents) {
                Some(stored) => if stored == self.hash {
                    after
                } else {
                    Task::Build
                },
                None => Task::Build,
            },
            Task::Build => after,
            Task::ReadHostHash => match contents {
                Some(text) => if text.eq(&self.host_hash) {
                    Task::Done
                } else {
                    Task::SyncHost
                },
                None => Task::SyncHost,
            },
            Task::SyncHost => Task::Done,
            Task::Done => Task::Done,
        };
    }
}

/// What the hash files hold, by the triples in whose directories they are. Where the triple of the
/// target is that of the host, there is one hash file for both.
pub type HashFiles = Map<Seq<char>, Seq<char>>;

/// What the hash file of a triple holds, if it is there.
pub open spec fn contents_of(files: HashFiles, triple: Seq<char>) -> Option<Seq<char>> {
    if files.contains_key(triple) {
        Some(files[triple])
    } else {
        None
    }
}

/// What a run of an update does, and the hash files that it leaves.
pub struct Run {
    pub built: bool,
    pub synced: bool,
    pub files: HashFiles,
}

/// How many tasks are left at most.
pub open spec fn tasks_left(task: Task) -> nat {
    match task {
        Task::ReadTargetHash => 4,
        Task::Build => 3,
        Task::ReadHostHash => 2,
        Task::SyncHost => 1,
        Task::Done => 0,
    }
}

/// What a task reads.
pub open spec fn read_for(
    task: Task,
    target: Seq<char>,
    host: Seq<char>,
    files: HashFiles,
) -> Option<Seq<char>> {
    match task {
        Task::ReadTargetHash => contents_of(files, target),
        Task::ReadHostHash => contents_of(files, host),
        _ => None,
    }
}

/// The run of an update that goes on until nothing is to be done. A build leaves the hash in the
/// hash file of the target, a copy for the host leaves the commit in that of the host.
pub open spec fn run(update: UpdateModel, target: Seq<char>, host: Seq<char>, before: Run) -> Run
    decreases tasks_left(update.task),
{
    let next = UpdateModel {
        task: next_task(update, read_for(update.task, target, host, before.files)),
        ..update
    };
    match update.task {
        Task::Done => before,
        Task::Build => run(
            next,
            target,
            host,
            Run {
                built: true,
                files: before.files.insert(target, decimal(update.hash as nat)),
                ..before
            },
        ),
        Task::SyncHost => run(
            next,
            target,
            host,
            Run { synced: true, files: before.files.insert(host, update.host_hash), ..before },
        ),
        _ => run(next, target, host, before),
    }
}

/// The run of a whole update.
pub open spec fn whole_run(
    track_sysroot: bool,
    hash: u64,
    native: bool,
    commit_hash: Option<Seq<char>>,
    target: Seq<char>,
    host: Seq<char>,
    files: HashFiles,
) -> Run {
    run(
        begun(track_sysroot, hash, native, commit_hash),
        target,
        host,
        Run { built: false, synced: false, files },
    )
}

/// Every task brings an update closer to its end.
pub proof fn law_update_ends(update: UpdateModel, contents: Option<Seq<char>>)
    requires
        update.task != Task::Done,
    ensures
        tasks_left(next_task(update, contents)) < tasks_left(update.task),
{
}

/// The sysroot of the target is built exactly if it is tracked or its hash file does not hold the
/// hash. The host's libraries are copied exactly if the sysroot is not a native one and the hash
/// file of the host, as the build leaves it, does not hold the commit of the compiler.
///
/// In the end the hash file of the target holds the hash, and that of the host the commit. If a
/// sysroot that is not native is for the host's own triple, the commit takes the place of the hash.
/// The hash files of other triples stay as they were.
pub proof fn law_update_does_what_is_needed(
    track_sysroot: bool,
    hash: u64,
    native: bool,
    commit_hash: Option<Seq<char>>,
    target: Seq<char>,
    host: Seq<char>,
    files: HashFiles,
)
    ensures
        ({
            let done = whole_run(track_sysroot, hash, native, commit_hash, target, host, files);
            let host_hash = match commit_hash {
                Some(text) => text,
                None => Seq::empty(),
            };
            let built = if done.built {
                files.insert(target, decimal(hash as nat))
            } else {
                files
            };
            &&& done.built <==> track_sysroot || stored_hash(contents_of(files, target)) != Some(
                hash,
            )
            &&& done.synced <==> !native && contents_of(built, host) != Some(host_hash)
            &&& !native ==> contents_of(done.files, host) == Some(host_hash)
            &&& native || target != host ==> stored_hash(contents_of(done.files, target)) == Some(
                hash,
            )
            &&& forall|triple: Seq<char>|
                triple != target && (native || triple != host) ==> #[trigger] contents_of(
                    done.files,
                    triple,
                ) == contents_of(files, triple)
        }),
{
    reveal_with_fuel(run, 5);
    law_decimal_round_trip(hash);
}

/// An update right after another one with the same outcome in view builds nothing but a tracked
/// sysroot, and copies nothing for the host.
///
/// It is otherwise where a sysroot that is not native is for the host's own triple: the one hash
/// file holds the commit of the compiler after the first update. Then the sysroot is built again
/// unless that text reads as the hash, and a build is followed by a copy unless the commit is the
/// hash as it is written.
pub proof fn law_second_update(
    track_sysroot: bool,
    hash: u64,
    native: bool,
    commit_hash: Option<Seq<char>>,
    target: Seq<char>,
    host: Seq<char>,
    files: HashFiles,
)
    ensures
        ({
            let first = whole_run(track_sysroot, hash, native, commit_hash, target, host, files);
            let second = whole_run(
                track_sysroot,
                hash,
                native,
                commit_hash,
                target,
                host,
                first.files,
            );
            let host_hash = match commit_hash {
                Some(text) => text,
                None => Seq::empty(),
            };
            let shared = !native && target == host;
            &&& second.built <==> track_sysroot || shared && stored_hash(Some(host_hash)) != Some(
                hash,
            )
            &&& second.synced <==> shared && second.built && decimal(hash as nat) != host_hash
        }),
{
    let first = whole_run(track_sysroot, hash, native, commit_hash, target, host, files);
    law_update_does_what_is_needed(
        track_sysroot,
        hash,
        native,
        commit_hash,
        target,
        host,
        files,
    );
    law_update_does_what_is_needed(
        track_sysroot,
        hash,
        native,
        commit_hash,
        target,
        host,
        first.files,
    );
}

/// An update begins with the hash file of the target, which a tracked sysroot does not need, and
/// keeps what it is about.
pub proof fn law_update_begins(
    track_sysroot: bool,
    hash: u64,
    native: bool,
    commit_hash: Option<Seq<char>>,
)
    ensures
        ({
            let update = begun(track_sysroot, hash, native, commit_hash);
            &&& update.hash == hash
            &&& update.native == native
            &&& commit_hash matches Some(text) ==> update.host_hash == text
            &&& commit_hash is None ==> update.host_hash.len() == 0
            &&& update.task == Task::Build <==> track_sysroot
            &&& update.task == Task::ReadTargetHash <==> !track_sysroot
        }),
{
}

/// The hash file of the target decides on a build alone, that of the host on a copy alone. After
/// the target comes the host, unless they are the same sysroot.
pub proof fn law_tasks_in_turn(update: UpdateModel, contents: Option<Seq<char>>)
    ensures
        ({
            let next = next_task(update, contents);
            &&& update.task == Task::ReadTargetHash ==> (next == Task::Build <==> stored_hash(
                contents,
            ) != Some(update.hash))
            &&& update.task == Task::Build || update.task == Task::ReadTargetHash && next
                != Task::Build ==> next == if update.native {
                Task::Done
            } else {
                Task::ReadHostHash
            }
            &&& update.task == Task::ReadHostHash ==> next == if contents == Some(update.host_hash) {
                Task::Done
            } else {
                Task::SyncHost
            }
            &&& update.task == Task::SyncHost || update.task == Task::Done ==> next == Task::Done
        }),
{
}

} // verus!
