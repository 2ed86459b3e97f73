use xargo_sysroot::blueprint::{Blueprint, StageOptions};
use xargo_sysroot::document::{Item, Table};
use xargo_sysroot::draft::{Draft, Query};
use xargo_sysroot::error::Error;
use xargo_sysroot::listing::Toml;

const TARGET: &str = "thumbv7m-none-eabi";
const WORKSPACE: &str = "tools/rustc-std-workspace-core";

fn text(s: &str) -> Item {
    Item::String(s.to_string())
}

fn table(entries: Vec<(&str, Item)>) -> Item {
    let mut r = Table::new();
    for (key, value) in entries {
        r.insert(key.to_string(), value);
    }
    Item::Table(r)
}

fn toml(dependencies: Option<Item>, target_dependencies: Option<Item>) -> Option<Toml> {
    Some(Toml { dependencies, target_dependencies, xargo: None })
}

/// Answers all questions: paths below `/` are absolute, relative paths lie below `/root`, and the
/// sources have these files.
fn drive(draft: Draft, files: &[&str], asked: &mut Vec<String>) -> Result<Blueprint, Error> {
    let mut draft = draft;
    loop {
        draft = match draft.query() {
            None => return draft.finish(),
            Some(Query::IsAbsolute { path, .. }) => {
                asked.push(format!("absolute {}", path));
                draft.reply_absolute(path.starts_with('/'))?
            }
            Some(Query::Canonicalize { path, .. }) => {
                asked.push(format!("canonical {}", path));
                if path.contains("missing") {
                    draft.reply(None)?
                } else {
                    draft.reply(Some(format!("/root/{}", path)))?
                }
            }
            Some(Query::FindLibrary { name, .. }) | Some(Query::FindWorkspace { name, .. }) => {
                asked.push(format!("find {}", name));
                if files.contains(&name.as_str()) {
                    draft.reply(Some(format!("/src/{}", name)))?
                } else {
                    draft.reply(None)?
                }
            }
        };
    }
}

fn build(toml: Option<Toml>, files: &[&str]) -> Result<Blueprint, Error> {
    drive(Blueprint::from(toml, TARGET)?, files, &mut vec![])
}

fn refusal(toml: Option<Toml>) -> String {
    build(toml, &[]).unwrap_err().message()
}

fn path_of<'a>(blueprint: &'a Blueprint, stage: i64, krate: &str) -> Option<&'a str> {
    match blueprint.stages[&stage].dependencies.get(krate) {
        Some(Item::Table(t)) => match t.get("path") {
            Some(Item::String(path)) => Some(path.as_str()),
            _ => None,
        },
        _ => panic!("no table"),
    }
}

#[test]
fn default_sysroot_is_core_and_compiler_builtins() {
    let mut asked = vec![];
    let draft = Blueprint::from(None, TARGET).unwrap();
    let files = ["libcore", "libcompiler_builtins", WORKSPACE];
    let b = drive(draft, &files, &mut asked).unwrap();
    assert_eq!(
        asked,
        vec![
            "find libcompiler_builtins",
            "find tools/rustc-std-workspace-core",
            "find libcore",
            "find tools/rustc-std-workspace-core",
        ]
    );
    assert!(!b.track_sysroot);
    assert_eq!(b.stage_numbers(), vec![0, 1]);
    assert_eq!(b.stages[&0].crates, vec!["core"]);
    assert_eq!(b.stages[&1].crates, vec!["compiler_builtins"]);
    assert_eq!(path_of(&b, 0, "core"), Some("/src/libcore"));
    assert_eq!(path_of(&b, 1, "compiler_builtins"), Some("/src/libcompiler_builtins"));
    match b.stages[&1].dependencies.get("compiler_builtins") {
        Some(Item::Table(t)) => {
            assert!(!t.contains_key("stage"));
            match t.get("features") {
                Some(Item::Array(a)) => {
                    assert_eq!(a.len(), 1);
                    assert!(matches!(&a[0], Item::String(s) if s == "mem"));
                }
                _ => panic!("no features"),
            }
        }
        _ => panic!("no table"),
    }
    assert!(!b.stages[&0].stage_options.disable_staged_api);
    assert!(b.stages[&0].patch.is_some());
}

#[test]
fn a_file_that_lists_nothing_gets_the_default() {
    let b = build(toml(None, None), &[]).unwrap();
    assert_eq!(b.stages[&0].crates, vec!["core"]);
    assert_eq!(path_of(&b, 0, "core"), None);
    assert!(b.stages[&0].patch.is_none());
}

#[test]
fn lists_are_combined() {
    let b = build(
        toml(
            Some(table(vec![("core", table(vec![])), ("std", table(vec![("stage", Item::Integer(2))]))])),
            Some(table(vec![("alloc", table(vec![])), ("zed", table(vec![("stage", Item::Integer(-1))]))])),
        ),
        &["liballoc"],
    )
    .unwrap();
    assert_eq!(b.stage_numbers(), vec![-1, 0, 2]);
    assert_eq!(b.stages[&0].crates, vec!["alloc", "core"]);
    assert_eq!(b.stages[&0].dependencies.len(), 2);
    assert_eq!(b.stages[&2].crates, vec!["std"]);
    assert_eq!(b.stages[&-1].crates, vec!["zed"]);
    assert_eq!(path_of(&b, 0, "alloc"), Some("/src/liballoc"));
    assert_eq!(path_of(&b, 0, "core"), None);
}

#[test]
fn the_list_of_the_target_alone_counts() {
    let b = build(toml(None, Some(table(vec![("alloc", table(vec![]))]))), &[]).unwrap();
    assert_eq!(b.stages[&0].crates, vec!["alloc"]);
    let b = build(toml(Some(table(vec![])), None), &[]).unwrap();
    assert!(b.stage_numbers().is_empty());
}

#[test]
fn relative_paths_become_canonical_and_absolute_ones_stay() {
    let mut asked = vec![];
    let t = toml(
        Some(table(vec![
            ("a", table(vec![("path", text("/abs/a"))])),
            ("b", table(vec![("path", text("rel/b")), ("git", text("g"))])),
            ("c", table(vec![("git", text("https://example.com"))])),
            ("d", table(vec![("version", text("1"))])),
        ])),
        None,
    );
    let draft = Blueprint::from(t, TARGET).unwrap();
    let b = drive(draft, &["liba", "libc"], &mut asked).unwrap();
    assert_eq!(
        asked,
        vec![
            "absolute /abs/a",
            "find tools/rustc-std-workspace-core",
            "absolute rel/b",
            "canonical rel/b",
            "find libd",
        ]
    );
    assert_eq!(path_of(&b, 0, "a"), Some("/abs/a"));
    assert_eq!(path_of(&b, 0, "b"), Some("/root/rel/b"));
    assert_eq!(path_of(&b, 0, "c"), None);
    assert_eq!(path_of(&b, 0, "d"), None);
    match b.stages[&0].dependencies.get("d") {
        Some(Item::Table(t)) => assert!(matches!(t.get("version"), Some(Item::String(s)) if s == "1")),
        _ => panic!("no table"),
    }
}

#[test]
fn the_platform_tells_absolute_paths() {
    let t = |path: &str| toml(Some(table(vec![("a", table(vec![("path", text(path))]))])), None);
    let draft = Blueprint::from(t("/abs/a"), TARGET).unwrap();
    let draft = draft.test_path().unwrap();
    assert!(matches!(draft.query(), Some(Query::FindWorkspace { stage: 0, .. })));
    let draft = Blueprint::from(t("rel/a"), TARGET).unwrap();
    let draft = draft.test_path().unwrap();
    assert!(matches!(draft.query(), Some(Query::Canonicalize { path, .. }) if path == "rel/a"));
    let draft = Blueprint::from(t("plain"), TARGET).unwrap();
    let draft = draft.test_path().unwrap();
    assert!(matches!(draft.query(), Some(Query::Canonicalize { path, .. }) if path == "plain"));
}

#[test]
fn an_answer_to_another_question_changes_nothing() {
    let draft = Blueprint::from(None, TARGET).unwrap();
    let draft = draft.reply_absolute(true).unwrap();
    let draft = draft.test_path().unwrap();
    assert!(matches!(draft.query(), Some(Query::FindLibrary { krate, name })
        if krate == "compiler_builtins" && name == "libcompiler_builtins"));
}

#[test]
fn push_makes_a_stage_once() {
    let mut b = Blueprint::new();
    assert!(!b.has_stage(3));
    b.push(3, "x".to_string(), Table::new(), Some("/w".to_string()));
    b.push(3, "a".to_string(), Table::new(), None);
    assert!(b.has_stage(3));
    assert_eq!(b.stages[&3].crates, vec!["x", "a"]);
    assert_eq!(b.stages[&3].dependencies.key_at(0), "a");
    let patch = b.stages[&3].patch.as_ref().unwrap();
    let core = match patch.get("crates-io") {
        Some(Item::Table(t)) => match t.get("rustc-std-workspace-core") {
            Some(Item::Table(t)) => t,
            _ => panic!("no crate"),
        },
        _ => panic!("no registry"),
    };
    assert!(matches!(core.get("path"), Some(Item::String(p)) if p == "/w"));
    assert!(!StageOptions::default().disable_staged_api);
}

#[test]
fn stage_options_are_given_to_their_stages() {
    let mut t = toml(
        Some(table(vec![("a", table(vec![])), ("b", table(vec![("stage", Item::Integer(1))]))])),
        None,
    )
    .unwrap();
    t.xargo = Some(table(vec![
        ("track-sysroot", Item::Boolean(true)),
        ("stage1", table(vec![("disable-staged-api", Item::Boolean(true))])),
        ("stage0", table(vec![])),
        ("stage7", Item::Integer(1)),
    ]));
    let b = build(Some(t), &[]).unwrap();
    assert!(b.track_sysroot);
    assert!(!b.stages[&0].stage_options.disable_staged_api);
    assert!(b.stages[&1].stage_options.disable_staged_api);
}

#[test]
fn faults_of_the_lists() {
    assert_eq!(
        refusal(toml(Some(Item::Integer(1)), Some(Item::Integer(1)))),
        "Xargo.toml: `dependencies` must be a table"
    );
    assert_eq!(
        refusal(toml(Some(table(vec![])), Some(Item::Integer(1)))),
        "Xargo.toml: `target.thumbv7m-none-eabi.dependencies` must be a table"
    );
    assert_eq!(
        refusal(toml(Some(Item::Integer(1)), None)),
        "Xargo.toml: target.thumbv7m-none-eabi.dependencies must be a table"
    );
    assert_eq!(
        refusal(toml(None, Some(Item::Boolean(true)))),
        "Xargo.toml: target.thumbv7m-none-eabi.dependencies must be a table"
    );
    let list = || table(vec![("b", table(vec![])), ("a", table(vec![]))]);
    assert_eq!(
        refusal(toml(Some(list()), Some(list()))),
        "found duplicate dependency name a, but all dependencies must have a unique name"
    );
}

#[test]
fn faults_of_an_entry() {
    let one = |entry: Item| toml(Some(table(vec![("core", entry)])), None);
    assert_eq!(
        refusal(one(text("1.0"))),
        "Xargo.toml: target.thumbv7m-none-eabi.dependencies.core must be a table"
    );
    assert_eq!(
        refusal(one(table(vec![("stage", text("0"))]))),
        "dependencies.core.stage must be an integer"
    );
    assert_eq!(
        refusal(one(table(vec![("path", Item::Integer(0))]))),
        "dependencies.core.path must be a string"
    );
    assert_eq!(
        refusal(one(table(vec![("path", text("missing/core"))]))),
        "couldn't canonicalize missing/core"
    );
}

#[test]
fn faults_of_options() {
    let with = |settings: Vec<(&str, Item)>| {
        let mut t = toml(None, None).unwrap();
        t.xargo = Some(table(settings));
        Some(t)
    };
    assert_eq!(
        refusal(with(vec![("track-sysroot", text("yes"))])),
        "Xargo.toml: xargo.track-sysroot must be a boolean"
    );
    assert_eq!(
        refusal(with(vec![("stage1", text("x"))])),
        "Xargo.toml: `xargo.stage1` must be a table"
    );
    assert_eq!(
        refusal(with(vec![("stage0", table(vec![("disable-staged-api", Item::Integer(1))]))])),
        "Xargo.toml: `xargo.stage0` must be a boolean"
    );
    let both = vec![("stage1", text("x")), ("stage0", text("x"))];
    assert_eq!(refusal(with(both)), "Xargo.toml: `xargo.stage0` must be a table");
    let mut t = toml(Some(table(vec![("a", table(vec![("stage", Item::Integer(-3))]))])), None).unwrap();
    t.xargo = Some(table(vec![("stage-3", text("x"))]));
    assert_eq!(refusal(Some(t)), "Xargo.toml: `xargo.stage-3` must be a table");
    let mut t = toml(None, None).unwrap();
    t.xargo = Some(text("no table"));
    assert!(!build(Some(t), &[]).unwrap().track_sysroot);
}

#[test]
fn the_first_fault_counts() {
    let t = toml(
        Some(table(vec![
            ("b", table(vec![("stage", text("0"))])),
            ("a", table(vec![("path", text("missing"))])),
        ])),
        None,
    );
    assert_eq!(refusal(t), "couldn't canonicalize missing");
    let mut t = toml(Some(table(vec![("a", text("x"))])), None).unwrap();
    t.xargo = Some(table(vec![("track-sysroot", text("x"))]));
    assert_eq!(refusal(Some(t)), "Xargo.toml: xargo.track-sysroot must be a boolean");
}

#[test]
fn a_draft_asks_at_most_three_questions_for_each_dependency() {
    let mut asked = vec![];
    let entries = (0..5)
        .map(|i| {
            let path = text(&format!("p{}", i));
            (["v", "w", "x", "y", "z"][i], table(vec![("path", path), ("stage", Item::Integer(i as i64))]))
        })
        .collect();
    let draft = Blueprint::from(toml(Some(table(entries)), None), TARGET).unwrap();
    let b = drive(draft, &[], &mut asked).unwrap();
    assert_eq!(asked.len(), 15);
    assert_eq!(b.stage_numbers(), vec![0, 1, 2, 3, 4]);
}

#[test]
fn a_blueprint_is_valid_if_its_tables_can_be_printed() {
    let mixed = || Item::Array(vec![table(vec![]), Item::Integer(1)]);
    assert!(build(None, &[]).unwrap().is_valid());
    let odd = table(vec![("core", table(vec![("x", mixed())]))]);
    assert!(!build(toml(Some(odd), None), &[]).unwrap().is_valid());
    let odd = table(vec![("core", table(vec![("x", mixed())]))]);
    assert_eq!(
        refusal(toml(Some(Item::Integer(1)), Some(odd))),
        "Xargo.toml: `dependencies` must be a table"
    );
}
