use std::collections::hash_map::DefaultHasher;
use std::hash::{Hash, Hasher};

use xargo_sysroot::blueprint::Blueprint;
use xargo_sysroot::document::{Item, Table};
use xargo_sysroot::hash::{feed, hash, old_hash};
use xargo_sysroot::mode::{CompilationMode, Target};
use xargo_sysroot::plan::{
    build, manifest_write, plan_host, plan_invocation, profile, Arg, Change, Settings, Step, Workspace,
    Write,
};
use xargo_sysroot::update::{update, Task, Update};

fn strings(texts: &[&str]) -> Vec<String> {
    texts.iter().map(|t| t.to_string()).collect()
}

fn path_table(path: &str) -> Table {
    let mut t = Table::new();
    t.insert("path".to_string(), Item::String(path.to_string()));
    t
}

fn sample() -> Blueprint {
    let mut b = Blueprint::new();
    b.push(1, "alloc".to_string(), path_table("/src/liballoc"), None);
    b.push(0, "core".to_string(), path_table("/src/libcore"), Some("/src/ws".to_string()));
    b.push(0, "builtins".to_string(), path_table("/src/libb"), None);
    b
}

fn settings() -> Settings {
    Settings {
        flags: "--sysroot /home/x".to_string(),
        profile: None,
        dev: false,
        keep_temp: false,
        target_path_set: false,
        verbose: false,
    }
}

fn custom() -> CompilationMode {
    CompilationMode::Cross(Target::Custom { triple: "thumbv7m-none-eabi".to_string() })
}

fn args(step: &Step) -> Vec<String> {
    match step {
        Step::RunCargo { invocation } => invocation
            .args
            .iter()
            .map(|a| match a {
                Arg::Text(t) => t.clone(),
                Arg::ManifestPath => "<manifest>".to_string(),
            })
            .collect(),
        _ => panic!("not a call of cargo"),
    }
}

fn changes(environment: &[Change]) -> Vec<String> {
    environment
        .iter()
        .map(|c| match c {
            Change::Assign { name, value } => format!("{}={}", name, value),
            Change::AssignSpecificationDirectory { name } => format!("{}=<specification>", name),
            Change::Remove { name } => format!("-{}", name),
        })
        .collect()
}

fn show(steps: &[Step]) -> Vec<String> {
    steps
        .iter()
        .map(|s| match s {
            Step::Clear { keep } => format!("clear {:?}", keep),
            Step::MakeDirectory { name } => format!("mkdir {}", name),
            Step::CopyFile { from, name, to } => {
                format!("copy {}/{} to {}", from.join("/"), name, to)
            }
            Step::CopyDirectory { from, to } => format!("copy {} to {}", from.join("/"), to),
            Step::OpenWorkspace { workspace: Workspace::Kept { path } } => {
                format!("open {}", path.join("/"))
            }
            Step::OpenWorkspace { workspace: Workspace::Temporary { keep } } => {
                format!("temporary {}", keep)
            }
            Step::WriteManifest { .. } => "manifest".to_string(),
            Step::RunCargo { invocation } => match invocation.args.last() {
                Some(Arg::Text(krate)) => format!("cargo {}", krate),
                _ => panic!("no crate"),
            },
            Step::CollectArtifacts { from, to } => format!("collect {} to {}", from.join("/"), to),
            Step::WriteHash { text } => format!("hash {}", text),
        })
        .collect()
}

#[test]
fn hash_is_that_of_the_strings_in_order() {
    let b = sample();
    let mut hasher = DefaultHasher::new();
    for text in [
        "builtins",
        "path = \"/src/libb\"\n",
        "core",
        "path = \"/src/libcore\"\n",
        "alloc",
        "path = \"/src/liballoc\"\n",
        "-C",
        "opt-level=s",
        "thumbv7m-none-eabi",
        "lto = true\n",
        "deadbeef",
    ] {
        text.hash(&mut hasher);
    }
    let flags = strings(&["-C", "opt-level=s"]);
    let target = strings(&["thumbv7m-none-eabi"]);
    let profile = Some(strings(&["lto = true\n"]));
    let commit = Some("deadbeef".to_string());
    assert_eq!(hash(&b, &flags, &target, &profile, &commit), hasher.finish());
}

#[test]
fn hash_of_nothing_is_that_of_a_new_hasher() {
    let none = DefaultHasher::new().finish();
    assert_eq!(hash(&Blueprint::new(), &vec![], &vec![], &None, &None), none);
    let mut a = DefaultHasher::new();
    let mut b = DefaultHasher::new();
    feed(&mut a, "caf\u{e9}");
    "caf\u{e9}".hash(&mut b);
    assert_eq!(a.finish(), b.finish());
}

#[test]
fn hash_covers_dependencies_only() {
    let h = |b: &Blueprint| hash(b, &vec![], &vec![], &None, &None);
    let mut b = sample();
    let before = h(&b);
    b.track_sysroot = true;
    b.stages.get_mut(&0).unwrap().patch = None;
    b.stages.get_mut(&0).unwrap().stage_options.disable_staged_api = true;
    assert_eq!(h(&b), before);
    let last = b.stages.remove(&1).unwrap();
    b.stages.insert(7, last);
    assert_eq!(h(&b), before);
    b.stages.get_mut(&0).unwrap().dependencies.remove("core");
    assert_ne!(h(&b), before);
}

#[test]
fn old_hash_is_read_from_the_hash_file() {
    assert_eq!(old_hash(&None), None);
    assert_eq!(old_hash(&Some("12".to_string())), Some(12));
    assert_eq!(old_hash(&Some("12\n".to_string())), None);
    assert_eq!(old_hash(&Some(u64::MAX.to_string())), Some(u64::MAX));
}

#[test]
fn build_goes_through_the_stages_and_writes_the_hash_last() {
    let steps = build(&custom(), sample(), &settings(), 42);
    assert_eq!(
        show(&steps),
        vec![
            "clear [\"build\"]",
            "mkdir lib",
            "temporary false",
            "manifest",
            "cargo core",
            "cargo builtins",
            "collect target/thumbv7m-none-eabi/release/deps to lib",
            "temporary false",
            "manifest",
            "cargo alloc",
            "collect target/thumbv7m-none-eabi/release/deps to lib",
            "hash 42",
        ]
    );
    assert_eq!(
        args(&steps[4]),
        vec!["build", "--release", "--manifest-path", "<manifest>", "--target", "thumbv7m-none-eabi", "-p", "core"]
    );
    match &steps[3] {
        Step::WriteManifest { text } => assert_eq!(
            text,
            "\n[package]\nauthors = [\"The Rust Project Developers\"]\nname = \"sysroot\"\n\
             version = \"0.0.0\"\n\
             [dependencies]\n\
             [dependencies.builtins]\n\
             path = \"/src/libb\"\n\
             \n\
             [dependencies.core]\n\
             path = \"/src/libcore\"\n\
             \n\
             [patch]\n\
             [patch.crates-io]\n\
             [patch.crates-io.rustc-std-workspace-core]\n\
             path = \"/src/ws\"\n"
        ),
        _ => panic!("no manifest"),
    }
}

#[test]
fn a_tracked_build_keeps_its_directories() {
    let mut b = sample();
    b.track_sysroot = true;
    b.push(-2, "early".to_string(), Table::new(), None);
    let mut s = settings();
    s.dev = true;
    s.keep_temp = true;
    let steps = show(&build(&custom(), b, &s, 0));
    assert_eq!(steps[2], "open build/stage-2");
    assert_eq!(steps[5], "collect target/thumbv7m-none-eabi/debug/deps to lib");
    assert_eq!(steps[6], "open build/stage0");
    assert_eq!(steps.last().unwrap(), "hash 0");
    s.profile = Some("[profile.release]\n".to_string());
    let steps = build(&custom(), sample(), &s, 0);
    assert_eq!(show(&steps)[2], "temporary true");
    assert!(matches!(&steps[3], Step::WriteManifest { text } if text.ends_with("[profile.release]\n")));
}

#[test]
fn windows_gnu_targets_get_startup_objects() {
    let mode = CompilationMode::Native("x86_64-pc-windows-gnu".to_string());
    let steps = show(&build(&mode, Blueprint::new(), &settings(), 1));
    assert_eq!(
        steps,
        vec![
            "clear [\"build\"]",
            "mkdir lib",
            "copy lib/rustlib/x86_64-pc-windows-gnu/lib/rsbegin.o to lib",
            "copy lib/rustlib/x86_64-pc-windows-gnu/lib/rsend.o to lib",
            "copy lib/rustlib/x86_64-pc-windows-gnu/lib/crt2.o to lib",
            "copy lib/rustlib/x86_64-pc-windows-gnu/lib/dllcrt2.o to lib",
            "hash 1",
        ]
    );
}

#[test]
fn cargo_is_called_as_the_settings_say() {
    let mut s = settings();
    let call = plan_invocation("core", false, &custom(), &s);
    assert_eq!(call.program, "cargo");
    assert!(!call.verbose);
    assert_eq!(
        changes(&call.environment),
        vec![
            "RUSTFLAGS=--sysroot /home/x -Z force-unstable-if-unmarked",
            "-CARGO_TARGET_DIR",
            "RUST_TARGET_PATH=<specification>",
        ]
    );
    let call = plan_invocation("core", true, &custom(), &s);
    assert_eq!(changes(&call.environment)[0], "RUSTFLAGS=--sysroot /home/x");
    let builtin = CompilationMode::Cross(Target::Builtin { triple: "t".to_string() });
    assert_eq!(changes(&plan_invocation("core", false, &builtin, &s).environment).len(), 2);
    assert_eq!(builtin.triple(), "t");
    assert!(!builtin.is_native());
    s.target_path_set = true;
    s.verbose = true;
    s.dev = true;
    let call = plan_invocation("core", false, &custom(), &s);
    assert!(call.verbose);
    assert_eq!(
        changes(&call.environment),
        vec!["RUSTFLAGS=--sysroot /home/x -Z force-unstable-if-unmarked", "-CARGO_TARGET_DIR"]
    );
    assert_eq!(
        args(&Step::RunCargo { invocation: call }),
        vec!["build", "--manifest-path", "<manifest>", "--target", "thumbv7m-none-eabi", "-v", "-p", "core"]
    );
    assert_eq!(profile(true), "debug");
    assert_eq!(profile(false), "release");
}

#[test]
fn a_manifest_is_written_if_it_changed() {
    let text = "x".to_string();
    assert_eq!(manifest_write(false, None, &text), Write::Create);
    assert_eq!(manifest_write(true, None, &text), Write::Replace);
    assert_eq!(manifest_write(true, Some("y".to_string()), &text), Write::Replace);
    assert_eq!(manifest_write(true, Some("x".to_string()), &text), Write::Keep);
    assert_eq!(manifest_write(true, None, &String::new()), Write::Keep);
}

#[test]
fn the_host_gets_its_libraries_and_programs() {
    assert_eq!(
        show(&plan_host("x86_64-unknown-linux-gnu", "deadbeef")),
        vec![
            "clear []",
            "mkdir lib",
            "copy lib/rustlib/x86_64-unknown-linux-gnu/lib to lib",
            "mkdir bin",
            "copy lib/rustlib/x86_64-unknown-linux-gnu/bin to bin",
            "hash deadbeef",
        ]
    );
}

/// Runs an update on hash files and tells what was built and copied.
fn run(mut u: Update, target: &mut Option<String>, host: &mut Option<String>) -> (bool, bool) {
    let mut done = (false, false);
    loop {
        match u.task() {
            Task::ReadTargetHash => u.advance(target.clone()),
            Task::Build => {
                *target = Some(u.hash().to_string());
                done.0 = true;
                u.advance(None);
            }
            Task::ReadHostHash => u.advance(host.clone()),
            Task::SyncHost => {
                *host = Some(u.host_hash().to_string());
                done.1 = true;
                u.advance(None);
            }
            Task::Done => return done,
        }
    }
}

#[test]
fn a_second_update_does_nothing() {
    let commit = Some("deadbeef".to_string());
    let mut target = Some("not a hash".to_string());
    let mut host = None;
    let begin = || update(&custom(), &sample(), &vec![], &vec![], &None, &commit);
    assert_eq!(run(begin(), &mut target, &mut host), (true, true));
    assert_eq!(host, commit);
    assert_eq!(run(begin(), &mut target, &mut host), (false, false));
    let other = strings(&["-C"]);
    let changed = update(&custom(), &sample(), &other, &vec![], &None, &commit);
    assert_eq!(run(changed, &mut target, &mut host), (true, false));
}

#[test]
fn a_tracked_sysroot_is_always_recompiled() {
    let mut target = Some("5".to_string());
    let mut host = Some(String::new());
    assert_eq!(run(Update::new(true, 5, false, &None), &mut target, &mut host), (true, false));
    assert_eq!(run(Update::new(false, 5, false, &None), &mut target, &mut host), (false, false));
}

#[test]
fn a_native_sysroot_needs_no_copy_for_the_host() {
    let mut target = None;
    let mut host = None;
    let native = CompilationMode::Native("x86_64-unknown-linux-gnu".to_string());
    let u = update(&native, &sample(), &vec![], &vec![], &None, &None);
    assert_eq!(run(u, &mut target, &mut host), (true, false));
    assert_eq!(host, None);
    assert_eq!(run(Update::new(false, 1, false, &None), &mut target, &mut host), (true, true));
    assert_eq!(host, Some(String::new()));
}

/// Runs an update whose target and host have one hash file.
fn run_shared(mut u: Update, file: &mut Option<String>) -> (bool, bool) {
    let mut done = (false, false);
    loop {
        match u.task() {
            Task::ReadTargetHash | Task::ReadHostHash => u.advance(file.clone()),
            Task::Build => {
                *file = Some(u.hash().to_string());
                done.0 = true;
                u.advance(None);
            }
            Task::SyncHost => {
                *file = Some(u.host_hash().to_string());
                done.1 = true;
                u.advance(None);
            }
            Task::Done => return done,
        }
    }
}

#[test]
fn in_a_shared_hash_file_the_commit_replaces_the_hash() {
    let commit = Some("deadbeef".to_string());
    let mut file = None;
    for _ in 0..2 {
        assert_eq!(run_shared(Update::new(false, 5, false, &commit), &mut file), (true, true));
        assert_eq!(file, commit);
    }
    let number = Some("005".to_string());
    assert_eq!(run_shared(Update::new(false, 5, false, &number), &mut file), (true, true));
    assert_eq!(run_shared(Update::new(false, 5, false, &number), &mut file), (false, false));
    assert_eq!(run_shared(Update::new(true, 5, false, &number), &mut file), (true, true));
    let same = Some("5".to_string());
    assert_eq!(run_shared(Update::new(true, 5, false, &same), &mut file), (true, false));
}
