use std::collections::VecDeque;

use cosmic_bg::order::{path_precedes, sort_paths};
use cosmic_bg::paths::same_path;
use cosmic_bg::queue::{advance, enqueue_files, find_path, holds_path, remove_files, resume_from};

fn s(x: &str) -> String {
    x.to_string()
}

fn q(items: &[&str]) -> VecDeque<String> {
    items.iter().map(|x| x.to_string()).collect()
}

fn v(items: &[&str]) -> Vec<String> {
    items.iter().map(|x| x.to_string()).collect()
}

#[test]
fn precedes_compares_character_by_character() {
    assert!(path_precedes(&s("a"), &s("b")));
    assert!(!path_precedes(&s("b"), &s("a")));
    assert!(path_precedes(&s("a"), &s("ab")));
    assert!(!path_precedes(&s("ab"), &s("a")));
    assert!(!path_precedes(&s("same"), &s("same")));
    assert!(path_precedes(&s(""), &s("x")));
    assert!(path_precedes(&s("img10.png"), &s("img2.png")));
    assert!(path_precedes(&s("Z"), &s("a")));
    assert!(path_precedes(&s("caf\u{e9}"), &s("caf\u{f0}")));
}

#[test]
fn precedes_agrees_with_str_order() {
    let words = ["", "a", "ab", "b", "B", "\u{e9}t\u{e9}", "zz", "z\u{10000}", "z\u{ffff}"];
    for x in words.iter() {
        for y in words.iter() {
            assert_eq!(path_precedes(&s(x), &s(y)), x < y, "{} {}", x, y);
        }
    }
}

#[test]
fn sort_orders_alphanumerically() {
    let sorted = sort_paths(v(&["/w/b/2.png", "/w/a/1.png", "/w/a/10.png", "/w/a/2.png"]));
    assert_eq!(sorted, v(&["/w/a/1.png", "/w/a/10.png", "/w/a/2.png", "/w/b/2.png"]));
}

#[test]
fn sort_keeps_duplicates_and_handles_small_inputs() {
    assert_eq!(sort_paths(Vec::new()), Vec::<String>::new());
    assert_eq!(sort_paths(v(&["x"])), v(&["x"]));
    assert_eq!(sort_paths(v(&["b", "a", "b", "a"])), v(&["a", "a", "b", "b"]));
    let already = v(&["1", "2", "3", "4", "5"]);
    assert_eq!(sort_paths(already.clone()), already);
    let reversed = v(&["5", "4", "3", "2", "1"]);
    assert_eq!(sort_paths(reversed), already);
}

#[test]
fn find_gives_first_position() {
    let queue = q(&["a", "b", "a", "c"]);
    assert_eq!(find_path(&queue, &s("a")), Some(0));
    assert_eq!(find_path(&queue, &s("c")), Some(3));
    assert_eq!(find_path(&queue, &s("d")), None);
    assert!(holds_path(&queue, &s("b")));
    assert!(!holds_path(&queue, &s("z")));
}

#[test]
fn resume_turns_queue_to_path() {
    let mut queue = q(&["a", "b", "c", "d"]);
    resume_from(&mut queue, &s("c"));
    assert_eq!(queue, q(&["c", "d", "a", "b"]));
}

#[test]
fn resume_from_first_or_absent_path_keeps_queue() {
    let mut queue = q(&["a", "b", "c"]);
    resume_from(&mut queue, &s("a"));
    assert_eq!(queue, q(&["a", "b", "c"]));
    resume_from(&mut queue, &s("x"));
    assert_eq!(queue, q(&["a", "b", "c"]));
    let mut empty = q(&[]);
    resume_from(&mut empty, &s("x"));
    assert!(empty.is_empty());
}

#[test]
fn resume_uses_first_occurrence() {
    let mut queue = q(&["a", "b", "c", "b"]);
    resume_from(&mut queue, &s("b"));
    assert_eq!(queue, q(&["b", "c", "b", "a"]));
}

#[test]
fn advance_moves_front_to_back() {
    let mut queue = q(&["a", "b", "c"]);
    assert_eq!(advance(&mut queue), Some(s("a")));
    assert_eq!(queue, q(&["b", "c", "a"]));
    let mut empty = q(&[]);
    assert_eq!(advance(&mut empty), None);
    assert!(empty.is_empty());
}

#[test]
fn law_advancing_a_full_cycle_restores_queue() {
    let start = q(&["a", "b", "c", "d"]);
    let mut queue = start.clone();
    let mut shown = Vec::new();
    for _ in 0..start.len() {
        shown.push(advance(&mut queue).unwrap());
    }
    assert_eq!(queue, start);
    assert_eq!(shown, v(&["a", "b", "c", "d"]));
}

#[test]
fn enqueue_appends_new_files_once() {
    let mut queue = q(&["a", "b"]);
    enqueue_files(&mut queue, &v(&["c", "a", "d", "c"]));
    assert_eq!(queue, q(&["a", "b", "c", "d"]));
}

#[test]
fn law_enqueue_is_idempotent() {
    let files = v(&["x", "y", "x"]);
    let mut once = q(&["y", "z"]);
    enqueue_files(&mut once, &files);
    let mut twice = once.clone();
    enqueue_files(&mut twice, &files);
    assert_eq!(once, q(&["y", "z", "x"]));
    assert_eq!(twice, once);
}

#[test]
fn remove_drops_named_paths_in_order() {
    let mut queue = q(&["a", "b", "c", "b", "d"]);
    remove_files(&mut queue, &v(&["b", "x", "d"]));
    assert_eq!(queue, q(&["a", "c"]));
    let mut queue = q(&["a"]);
    remove_files(&mut queue, &v(&[]));
    assert_eq!(queue, q(&["a"]));
}

#[test]
fn law_add_then_remove_restores_queue() {
    let start = q(&["a", "b", "c"]);
    let files = v(&["n1", "n2"]);
    let mut queue = start.clone();
    enqueue_files(&mut queue, &files);
    assert_eq!(queue, q(&["a", "b", "c", "n1", "n2"]));
    remove_files(&mut queue, &files);
    assert_eq!(queue, start);
}

#[test]
fn paths_compare_by_components() {
    assert!(same_path(&s("a//b"), &s("a/b")));
    assert!(same_path(&s("/a/b/"), &s("/a/b")));
    assert!(same_path(&s("a/./b"), &s("a/b")));
    assert!(same_path(&s("./a"), &s("./a/")));
    assert!(!same_path(&s("./a"), &s("a")));
    assert!(!same_path(&s("/a"), &s("a")));
    assert!(!same_path(&s("a/../b"), &s("b")));
    assert!(same_path(&s("//a"), &s("/a")));
    assert!(same_path(&s("."), &s("./")));
    assert!(same_path(&s(""), &s("")));
    assert!(!same_path(&s("a"), &s("ab")));
}

#[test]
fn paths_agree_with_std_path_equality() {
    let ps = ["", ".", "./", "./a", "a", "a/", "a//b", "a/b", "/a/b", "//a/b/", "a/./b", "a/.", "..", "../a", "/", "/.", "./.", "x/y/z", "x/y//z/"];
    for x in ps.iter() {
        for y in ps.iter() {
            assert_eq!(
                cosmic_bg::paths::same_path(&s(x), &s(y)),
                std::path::Path::new(x) == std::path::Path::new(y),
                "{:?} {:?}", x, y
            );
        }
    }
}

#[test]
fn queue_finds_paths_by_components() {
    let mut queue = q(&["/w/a.png", "/w/b.png", "/w/c.png"]);
    assert_eq!(find_path(&queue, &s("/w//b.png")), Some(1));
    resume_from(&mut queue, &s("/w/./c.png"));
    assert_eq!(queue, q(&["/w/c.png", "/w/a.png", "/w/b.png"]));
    enqueue_files(&mut queue, &v(&["/w//a.png", "/w/d.png"]));
    assert_eq!(queue, q(&["/w/c.png", "/w/a.png", "/w/b.png", "/w/d.png"]));
    remove_files(&mut queue, &v(&["//w/a.png"]));
    assert_eq!(queue, q(&["/w/c.png", "/w/b.png", "/w/d.png"]));
}
