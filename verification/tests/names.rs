use var_store::name::{contains_sep, decimal_string, disambiguate, qualify, SEP};
use var_store::{Device, VarStore};

#[test]
fn the_separator_is_the_pipe() {
    assert_eq!(SEP, '|');
}

#[test]
fn nested_paths_join_with_the_separator() {
    let vs = VarStore::new(Device::Cpu);
    let root = vs.root();
    let a = root.sub("a");
    let b = a.sub("b");
    assert_eq!(b.path("w"), "a|b|w");
}

#[test]
fn a_name_at_the_root_stands_alone() {
    let vs = VarStore::new(Device::Cpu);
    assert_eq!(vs.root().path("w"), "w");
    assert_eq!(vs.root().path(""), "");
}

#[test]
fn sub_leaves_the_parent_path_as_it_was() {
    let vs = VarStore::new(Device::Cpu);
    let root = vs.root();
    let encoder = root.sub("encoder");
    let layer = encoder.sub("layer0");
    assert_eq!(layer.path("bias"), "encoder|layer0|bias");
    assert_eq!(encoder.path("bias"), "encoder|bias");
    assert_eq!(root.path("bias"), "bias");
}

#[test]
fn sub_then_name_is_parent_name_then_separator_then_name() {
    let vs = VarStore::new(Device::Cpu);
    let p = vs.root().sub("x").sub("y");
    let q = p.sub("z");
    assert_eq!(q.path("w"), format!("{}|{}", p.path("z"), "w"));
}

#[test]
fn empty_segments_still_get_their_separators() {
    let vs = VarStore::new(Device::Cpu);
    let p = vs.root().sub("").sub("a");
    assert_eq!(p.path("w"), "|a|w");
}

#[test]
fn qualify_joins_segments_and_name() {
    let none: Vec<String> = Vec::new();
    assert_eq!(qualify(&none, "w"), "w");
    let one = vec!["a".to_string()];
    assert_eq!(qualify(&one, "w"), "a|w");
    let three = vec!["a".to_string(), "bc".to_string(), "d".to_string()];
    assert_eq!(qualify(&three, "weight"), "a|bc|d|weight");
}

#[test]
fn qualify_keeps_characters_outside_ascii() {
    let segs = vec!["é".to_string()];
    assert_eq!(qualify(&segs, "ß"), "é|ß");
}

#[test]
fn contains_sep_finds_the_separator_anywhere() {
    assert!(contains_sep("|"));
    assert!(contains_sep("a|b"));
    assert!(contains_sep("|a"));
    assert!(contains_sep("a|"));
    assert!(contains_sep("été|"));
}

#[test]
fn contains_sep_accepts_names_without_it() {
    assert!(!contains_sep(""));
    assert!(!contains_sep("weight"));
    assert!(!contains_sep("a__1"));
    assert!(!contains_sep("a/b.c"));
}

#[test]
fn decimal_string_writes_base_ten() {
    assert_eq!(decimal_string(0), "0");
    assert_eq!(decimal_string(7), "7");
    assert_eq!(decimal_string(10), "10");
    assert_eq!(decimal_string(42), "42");
    assert_eq!(decimal_string(100), "100");
    assert_eq!(decimal_string(1234567890), "1234567890");
    assert_eq!(decimal_string(usize::MAX), usize::MAX.to_string());
}

#[test]
fn disambiguate_appends_two_underscores_and_the_count() {
    assert_eq!(disambiguate("a|w", 1), "a|w__1");
    assert_eq!(disambiguate("w", 0), "w__0");
    assert_eq!(disambiguate("", 12), "__12");
    assert_eq!(disambiguate("w__1", 205), "w__1__205");
}

#[test]
fn different_places_give_different_names() {
    let vs = VarStore::new(Device::Cpu);
    let root = vs.root();
    let a = root.sub("a");
    let ab = a.sub("b");
    let b = root.sub("b");
    let all = vec![
        root.path("a"),
        root.path("b"),
        a.path("a"),
        a.path("b"),
        ab.path("a"),
        ab.path("b"),
        b.path("a"),
        b.path("b"),
        root.sub("").path(""),
        root.path(""),
    ];
    for i in 0..all.len() {
        for j in 0..all.len() {
            assert_eq!(all[i] == all[j], i == j);
        }
    }
}
