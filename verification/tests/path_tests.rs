use std::path::{Path, PathBuf};

use quickjs_sys::cjs::{resolve_beside, starts_with_dot};
use quickjs_sys::path::{join, parent_of};

/// All names over a small alphabet, up to seven characters long.
fn names() -> Vec<String> {
    let mut all = vec![String::new()];
    let mut last = vec![String::new()];
    for _ in 0..7 {
        let mut next = vec![];
        for name in &last {
            for c in ['/', '.', 'a'] {
                let mut longer = name.clone();
                longer.push(c);
                next.push(longer);
            }
        }
        all.extend(next.iter().cloned());
        last = next;
    }
    all
}

#[test]
fn parent_of_ordinary_names() {
    assert_eq!(parent_of("a/b/c.js"), Some("a/b".to_string()));
    assert_eq!(parent_of("/a"), Some("/".to_string()));
    assert_eq!(parent_of("main.js"), Some("".to_string()));
    assert_eq!(parent_of("a/b//"), Some("a".to_string()));
    assert_eq!(parent_of("\u{e9}/\u{20ac}"), Some("\u{e9}".to_string()));
    assert_eq!(parent_of("./x"), Some(".".to_string()));
    assert_eq!(parent_of("/"), None);
    assert_eq!(parent_of("//."), None);
    assert_eq!(parent_of(""), None);
}

#[test]
fn parent_agrees_with_std() {
    for name in names() {
        let expected = Path::new(&name).parent().map(|p| format!("{}", p.display()));
        assert_eq!(parent_of(&name), expected, "{:?}", name);
    }
}

#[test]
fn join_of_ordinary_names() {
    assert_eq!(join("a", "./b"), "a/./b");
    assert_eq!(join("a/", "b"), "a/b");
    assert_eq!(join("", "b"), "b");
    assert_eq!(join("a", "/b"), "/b");
    assert_eq!(join("a", ""), "a/");
}

#[test]
fn join_agrees_with_std() {
    for base in names().iter().take(200) {
        for name in names().iter().take(200) {
            let expected = Path::new(base).join(name);
            assert_eq!(join(base, name), format!("{}", expected.display()));
        }
    }
}

#[test]
fn name_beside_a_file_agrees_with_std() {
    for file in names().iter().take(400) {
        for specifier in [".", "..", "./x", "../x", ".x", "./a/../b"] {
            let mut p = PathBuf::from(file);
            p.pop();
            p.push(specifier);
            assert_eq!(resolve_beside(file, specifier), format!("{}", p.display()));
        }
    }
}

#[test]
fn relative_names_start_with_a_dot() {
    assert!(starts_with_dot("./a"));
    assert!(starts_with_dot(".."));
    assert!(!starts_with_dot("a"));
    assert!(!starts_with_dot(""));
    assert!(!starts_with_dot("/."));
}
