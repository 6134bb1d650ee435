use resize_tree::paths::{output_path, PathError, TreePath};

fn tp(s: &str) -> TreePath {
    let root = if s.starts_with('/') { "/" } else { "" };
    TreePath {
        root: root.to_string(),
        segments: s.split('/').filter(|x| !x.is_empty()).map(|x| x.to_string()).collect(),
    }
}

fn out(file: &str, input: &str, output: &str) -> Result<String, PathError> {
    output_path(&tp(file), &tp(input), &tp(output)).map(|p| p.text())
}

#[test]
fn reroots_file_under_input() {
    assert_eq!(out("in/a.jpg", "in", "out"), Ok("out/a.jpg".to_string()));
    assert_eq!(out("/data/in/x/y/b.png", "/data/in", "/srv/out"), Ok("/srv/out/x/y/b.png".to_string()));
}

#[test]
fn keeps_every_intermediate_segment() {
    assert_eq!(out("in/2024/07/day one/c.jpg", "in", "o/p"), Ok("o/p/2024/07/day one/c.jpg".to_string()));
}

#[test]
fn distinct_files_land_apart() {
    assert_ne!(out("in/a/b.jpg", "in", "out"), out("in/a.b.jpg", "in", "out"));
}

#[test]
fn file_outside_root_climbs() {
    assert_eq!(out("x/a.jpg", "in", "out"), Ok("out/../x/a.jpg".to_string()));
}

#[test]
fn absolute_file_under_relative_root_is_kept() {
    assert_eq!(out("/a.jpg", "in", "out"), Ok("/a.jpg".to_string()));
}

#[test]
fn relative_file_under_absolute_root_fails() {
    assert_eq!(out("a.jpg", "/in", "out"), Err(PathError::NoRelativePath));
}

#[test]
fn root_climbing_where_paths_part_fails() {
    assert_eq!(out("a/b.jpg", "../in", "out"), Err(PathError::NoRelativePath));
    assert_eq!(out("../in/b.jpg", "../in", "out"), Ok("out/b.jpg".to_string()));
}

#[test]
fn parent_drops_last_segment() {
    assert_eq!(tp("out/x/a.jpg").parent().map(|p| p.text()), Some("out/x".to_string()));
    assert_eq!(tp("/a.jpg").parent().map(|p| p.text()), Some("/".to_string()));
    assert!(tp("/").parent().is_none());
}

#[test]
fn well_formedness() {
    assert!(tp("/a/b").well_formed());
    let dot = TreePath { root: String::new(), segments: vec![".".to_string()] };
    assert!(!dot.well_formed());
    let slash = TreePath { root: String::new(), segments: vec!["a/b".to_string()] };
    assert!(!slash.well_formed());
    let empty = TreePath { root: String::new(), segments: vec![String::new()] };
    assert!(!empty.well_formed());
    let bad_root = TreePath { root: "x".to_string(), segments: vec![] };
    assert!(!bad_root.well_formed());
}
