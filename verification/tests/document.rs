use xargo_sysroot::document::{Item, Table};
use xargo_sysroot::plan::{assemble, manifest, TOML};
use xargo_sysroot::text::{compare, contains, parse_u64, render_i64, render_u64, Side};

fn text(s: &str) -> Item {
    Item::String(s.to_string())
}

fn table(entries: Vec<(&str, Item)>) -> Table {
    let mut r = Table::new();
    for (key, value) in entries {
        r.insert(key.to_string(), value);
    }
    r
}

fn keys(t: &Table) -> Vec<String> {
    (0..t.len()).map(|i| t.key_at(i).to_string()).collect()
}

fn printed(t: Table) -> String {
    let whole = manifest(t, None, &None);
    let head = format!("{}[dependencies]\n", TOML);
    assert!(whole.starts_with(&head));
    whole[head.len()..].to_string()
}

#[test]
fn tables_are_sorted_and_hold_each_key_once() {
    let mut t = table(vec![
        ("core", Item::Integer(1)),
        ("alloc", Item::Integer(2)),
        ("coretests", Item::Integer(3)),
        ("Zed", Item::Integer(4)),
        ("\u{e9}", Item::Integer(5)),
    ]);
    assert_eq!(keys(&t), vec!["Zed", "alloc", "core", "coretests", "\u{e9}"]);
    assert!(matches!(t.insert("core".to_string(), Item::Integer(7)), Some(Item::Integer(1))));
    assert_eq!(t.len(), 5);
    assert!(matches!(t.get("core"), Some(Item::Integer(7))));
    assert!(matches!(t.get("alloc"), Some(Item::Integer(2))));
    assert!(t.get("cor").is_none());
    assert!(t.contains_key("Zed"));
    assert!(!t.contains_key("zed"));
}

#[test]
fn removing_a_key_leaves_the_others() {
    let mut t = table(vec![("b", Item::Integer(2)), ("a", Item::Integer(1)), ("c", Item::Integer(3))]);
    assert!(t.remove("x").is_none());
    assert!(matches!(t.remove("b"), Some(Item::Integer(2))));
    assert_eq!(keys(&t), vec!["a", "c"]);
    assert!(matches!(t.get("c"), Some(Item::Integer(3))));
    assert!(t.get("b").is_none());
    let entries = t.into_entries();
    assert_eq!(entries.len(), 2);
    assert_eq!(entries[0].0, "a");
    assert!(matches!(entries[1].1, Item::Integer(3)));
}

#[test]
fn order_of_strings_is_that_of_std() {
    let words = ["", "a", "ab", "abc", "b", "Z", "stage", "stages", "\u{e9}", "\u{1f600}"];
    for a in words {
        for b in words {
            let expected = if a < b {
                Side::Below
            } else if a == b {
                Side::Same
            } else {
                Side::Above
            };
            assert_eq!(compare(a, b), expected);
        }
    }
}

#[test]
fn every_kind_of_value_is_printed() {
    let t = table(vec![
        ("string", text("say \"hi\"")),
        ("integer", Item::Integer(-3)),
        ("float", Item::Float("1.50".to_string())),
        ("whole", Item::Float("2".to_string())),
        ("odd", Item::Float("none".to_string())),
        ("boolean", Item::Boolean(true)),
        ("datetime", Item::Datetime("1979-05-27T07:32:00Z".to_string())),
        ("array", Item::Array(vec![Item::Integer(1), Item::Integer(2)])),
        ("table", Item::Table(table(vec![("a b", Item::Boolean(false))]))),
    ]);
    assert!(t.is_valid());
    assert_eq!(
        printed(t),
        "array = [1, 2]\n\
         boolean = true\n\
         datetime = 1979-05-27T07:32:00Z\n\
         float = 1.5\n\
         integer = -3\n\
         odd = 0.0\n\
         string = \"say \\\"hi\\\"\"\n\
         whole = 2.0\n\
         \n\
         [dependencies.table]\n\
         \"a b\" = false\n"
    );
}

#[test]
fn an_array_of_tables_is_printed_table_by_table() {
    let t = table(vec![(
        "x",
        Item::Array(vec![
            Item::Table(table(vec![("n", Item::Integer(1))])),
            Item::Table(table(vec![("n", Item::Integer(2))])),
        ]),
    )]);
    assert!(t.is_valid());
    assert_eq!(
        printed(t),
        "[[dependencies.x]]\nn = 1\n\n[[dependencies.x]]\nn = 2\n"
    );
}

#[test]
fn a_mixed_array_in_a_table_is_not_valid() {
    let mixed = || Item::Array(vec![Item::Table(Table::new()), Item::Integer(1)]);
    assert!(mixed().is_mixed());
    assert!(mixed().is_valid());
    assert!(!Item::Table(table(vec![("x", mixed())])).is_valid());
    assert!(!Item::Array(vec![Item::Table(table(vec![("x", mixed())]))]).is_valid());
    assert!(!table(vec![("t", Item::Table(table(vec![("x", mixed())])))]).is_valid());
    let inner = table(vec![("x", Item::Array(vec![mixed()]))]);
    assert!(inner.is_valid());
    assert_eq!(printed(inner), "x = [[, 1]]\n");
    assert!(!Item::Array(vec![Item::Integer(1), Item::Table(Table::new())]).is_mixed());
    assert!(!Item::Array(vec![]).is_mixed());
    assert!(!Item::Integer(1).is_mixed());
}

#[test]
fn a_manifest_has_a_head_tables_and_a_profile() {
    assert_eq!(
        assemble("[dependencies]\n", &Some("[profile.release]\nlto = true\n".to_string())),
        "\n[package]\nauthors = [\"The Rust Project Developers\"]\nname = \"sysroot\"\n\
         version = \"0.0.0\"\n[dependencies]\n[profile.release]\nlto = true\n"
    );
    let deps = table(vec![("core", Item::Table(table(vec![("path", text("/src/libcore"))])))]);
    let patch = table(vec![("crates-io", Item::Table(table(vec![("x", Item::Integer(1))])))]);
    assert_eq!(
        manifest(deps, Some(patch), &None),
        "\n[package]\nauthors = [\"The Rust Project Developers\"]\nname = \"sysroot\"\n\
         version = \"0.0.0\"\n\
         [dependencies]\n\
         [dependencies.core]\n\
         path = \"/src/libcore\"\n\
         \n\
         [patch]\n\
         [patch.crates-io]\n\
         x = 1\n"
    );
}

#[test]
fn numbers_are_written_and_read_in_decimal() {
    for n in [0u64, 7, 10, 42, 999, 1_000_000, u64::MAX] {
        assert_eq!(render_u64(n), n.to_string());
        assert_eq!(parse_u64(&render_u64(n)), Some(n));
    }
    for i in [0i64, 5, -1, -10, i64::MAX, i64::MIN] {
        assert_eq!(render_i64(i), i.to_string());
    }
}

#[test]
fn numbers_are_read_as_std_reads_them() {
    let texts = [
        "", "+", "-", "-1", "+1", "++1", "007", "12a", " 1", "1 ", "1_0", "18446744073709551615",
        "18446744073709551616", "00000000000000000000000000001", "99999999999999999999999",
        "\u{661}", "0",
    ];
    for t in texts {
        assert_eq!(parse_u64(t), t.parse::<u64>().ok(), "{}", t);
    }
}

#[test]
fn substrings_are_found() {
    assert!(contains("x86_64-pc-windows-gnu", "pc-windows-gnu"));
    assert!(contains("abab", "bab"));
    assert!(contains("abc", ""));
    assert!(contains("", ""));
    assert!(!contains("", "a"));
    assert!(!contains("x86_64-pc-windows-msvc", "pc-windows-gnu"));
    assert!(!contains("abc", "abcd"));
}
