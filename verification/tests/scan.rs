use json_merge::scan::{contains_json_file, validate_path};
use json_merge::tree::Node;

fn file(directory: &str, name: &str) -> Node {
    Node::File { name: name.to_string(), path: format!("{}/{}", directory, name) }
}

fn directory(path: &str, entries: Vec<Node>) -> Node {
    let name = path.rsplit('/').next().unwrap().to_string();
    Node::Directory { name, path: path.to_string(), entries }
}

#[test]
fn a_file_is_no_directory_with_json() {
    assert!(!contains_json_file(&file("root", "a.json")));
    assert!(!contains_json_file(&Node::Other));
}

#[test]
fn an_empty_directory_has_no_json() {
    assert!(!contains_json_file(&directory("root", vec![])));
}

#[test]
fn a_json_file_in_the_directory_is_found() {
    assert!(contains_json_file(&directory("root", vec![file("root", "a.json")])));
    assert!(contains_json_file(&directory("root", vec![file("root", "A.JSON")])));
    assert!(contains_json_file(&directory(
        "root",
        vec![file("root", "readme.txt"), file("root", "a.json"), file("root", "b.txt")]
    )));
}

#[test]
fn files_of_other_kinds_are_not_json() {
    assert!(!contains_json_file(&directory(
        "root",
        vec![file("root", "readme.txt"), file("root", "json"), Node::Other]
    )));
}

#[test]
fn a_json_file_below_a_subdirectory_is_found() {
    let deep = directory("root/sub/deep", vec![file("root/sub/deep", "leaf.json")]);
    let tree = directory("root", vec![directory("root/sub", vec![deep])]);
    assert!(contains_json_file(&tree));
}

#[test]
fn a_subdirectory_without_json_behind_a_json_file_hides_it() {
    let tree = directory("root", vec![file("root", "a.json"), directory("root/empty", vec![])]);
    assert!(!contains_json_file(&tree));
}

#[test]
fn a_subdirectory_without_json_before_a_json_file_does_no_harm() {
    let tree = directory("root", vec![directory("root/empty", vec![]), file("root", "a.json")]);
    assert!(contains_json_file(&tree));
}

#[test]
fn the_last_subdirectory_decides_between_subdirectories() {
    let full = || directory("root/full", vec![file("root/full", "a.json")]);
    let empty = || directory("root/empty", vec![]);
    assert!(!contains_json_file(&directory("root", vec![full(), empty()])));
    assert!(contains_json_file(&directory("root", vec![empty(), full()])));
}

#[test]
fn a_file_behind_the_last_subdirectory_can_only_add() {
    let full = || directory("root/full", vec![file("root/full", "a.json")]);
    let empty = || directory("root/empty", vec![]);
    assert!(contains_json_file(&directory("root", vec![full(), file("root", "notes.txt")])));
    assert!(contains_json_file(&directory("root", vec![empty(), file("root", "b.json")])));
    assert!(!contains_json_file(&directory("root", vec![empty(), file("root", "notes.txt")])));
    assert!(contains_json_file(&directory("root", vec![full(), Node::Other])));
}

#[test]
fn a_tree_with_json_is_accepted() {
    let tree = directory("root", vec![file("root", "a.json")]);
    assert_eq!(validate_path(&tree), Ok(()));
}

#[test]
fn what_is_no_directory_is_refused() {
    let refused = Err("Path should be a directory".to_string());
    assert_eq!(validate_path(&file("root", "a.json")), refused);
    assert_eq!(validate_path(&Node::Other), refused);
}

#[test]
fn a_tree_without_json_is_refused_with_its_path() {
    let tree = directory("some/root", vec![file("some/root", "readme.txt")]);
    assert_eq!(
        validate_path(&tree),
        Err("Path[some/root] or sub-paths don't contain any Json files".to_string())
    );
    assert_eq!(
        validate_path(&directory("", vec![])),
        Err("Path[] or sub-paths don't contain any Json files".to_string())
    );
}

#[test]
fn a_tree_whose_json_the_scan_misses_is_refused() {
    let tree = directory("root", vec![file("root", "a.json"), directory("root/empty", vec![])]);
    assert_eq!(
        validate_path(&tree),
        Err("Path[root] or sub-paths don't contain any Json files".to_string())
    );
}

/// Whether a JSON file lies anywhere in the tree.
fn holds_json(node: &Node) -> bool {
    match node {
        Node::File { name, .. } => name.to_lowercase().ends_with(".json"),
        Node::Directory { entries, .. } => entries.iter().any(holds_json),
        Node::Other => false,
    }
}

/// Every directory with at most `width` entries, each a file, another
/// thing, or a directory of the depth below.
fn trees(depth: usize, width: usize) -> Vec<Node> {
    let mut leaves = vec![file("d", "a.json"), file("d", "a.txt"), Node::Other];
    if depth > 0 {
        leaves.extend(trees(depth - 1, width));
    }
    let mut listings: Vec<Vec<usize>> = vec![vec![]];
    let mut all: Vec<Vec<usize>> = vec![vec![]];
    for _ in 0..width {
        let mut longer = Vec::new();
        for listing in &listings {
            for leaf in 0..leaves.len() {
                let mut next = listing.clone();
                next.push(leaf);
                longer.push(next);
            }
        }
        all.extend(longer.iter().cloned());
        listings = longer;
    }
    all.iter()
        .map(|listing| directory("d", listing.iter().map(|&leaf| copy(&leaves[leaf])).collect()))
        .collect()
}

fn copy(node: &Node) -> Node {
    match node {
        Node::File { name, path } => Node::File { name: name.clone(), path: path.clone() },
        Node::Directory { name, path, entries } => Node::Directory {
            name: name.clone(),
            path: path.clone(),
            entries: entries.iter().map(copy).collect(),
        },
        Node::Other => Node::Other,
    }
}

#[test]
fn the_scan_reports_no_json_that_is_not_there() {
    let mut missed = 0;
    for tree in trees(1, 2) {
        if contains_json_file(&tree) {
            assert!(holds_json(&tree), "{:?}", tree);
        } else if holds_json(&tree) {
            missed += 1;
        }
    }
    assert!(missed > 0);
}

#[test]
fn the_scan_misses_nothing_where_no_subdirectory_is() {
    for tree in trees(0, 3) {
        assert_eq!(contains_json_file(&tree), holds_json(&tree), "{:?}", tree);
    }
}

#[test]
fn the_scan_says_yes_where_an_entry_settles_it() {
    for tree in trees(1, 2) {
        if let Node::Directory { entries, .. } = &tree {
            let says_yes = |entry: &Node| match entry {
                Node::File { name, .. } => name.ends_with(".json"),
                other => contains_json_file(other),
            };
            let says_no = |entry: &Node| {
                matches!(entry, Node::Directory { .. }) && !contains_json_file(entry)
            };
            let settled = (0..entries.len())
                .any(|i| says_yes(&entries[i]) && !entries[i + 1..].iter().any(says_no));
            assert_eq!(contains_json_file(&tree), settled, "{:?}", tree);
        }
    }
}
