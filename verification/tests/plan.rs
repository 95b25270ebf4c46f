use json_merge::plan::{collect, output_path, process, split};
use json_merge::order::sort;
use json_merge::splice::{Job, Part};
use json_merge::tree::Node;

fn file(directory: &str, name: &str) -> Node {
    Node::File { name: name.to_string(), path: format!("{}/{}", directory, name) }
}

fn directory(path: &str, entries: Vec<Node>) -> Node {
    let name = path.rsplit('/').next().unwrap().to_string();
    Node::Directory { name, path: path.to_string(), entries }
}

fn part(path: &str, comma: bool) -> Part {
    Part { path: path.to_string(), comma }
}

fn job(output: &str, parts: Vec<Part>) -> Job {
    Job { output: output.to_string(), parts }
}

fn strings(paths: &[&str]) -> Vec<String> {
    paths.iter().map(|p| p.to_string()).collect()
}

/// What a run writes: each merged file with its bytes, given the content
/// of every file that may be read.
fn run(tree: &Node, files: &[(&str, &str)]) -> Vec<(String, String)> {
    let mut written = Vec::new();
    for job in process(tree) {
        let contents: Vec<Vec<u8>> = job
            .parts
            .iter()
            .map(|part| {
                let found = files.iter().find(|(path, _)| *path == part.path);
                found.expect("a part that is no file of the tree").1.as_bytes().to_vec()
            })
            .collect();
        let merged = job.merge(&contents).unwrap();
        written.push((job.output, String::from_utf8(merged).unwrap()));
    }
    written
}

fn wrote(path: &str, bytes: &str) -> (String, String) {
    (path.to_string(), bytes.to_string())
}

#[test]
fn the_merged_file_lies_in_the_directory_under_its_name() {
    assert_eq!(output_path("root", "root"), "root/root.json");
    assert_eq!(output_path("some/where/data", "data"), "some/where/data/data.json");
    assert_eq!(output_path("/abs/data", "data"), "/abs/data/data.json");
}

#[test]
fn the_merged_path_is_put_together_as_given() {
    assert_eq!(output_path("data/", "data"), "data//data.json");
    assert_eq!(output_path("", ""), "/.json");
    assert_eq!(output_path("a b/ü", "ü"), "a b/ü/ü.json");
}

#[test]
fn collect_takes_the_json_files_as_they_are_listed() {
    let entries = vec![
        file("root", "b.json"),
        file("root", "readme.txt"),
        directory("root/sub.json", vec![file("root/sub.json", "deep.json")]),
        Node::Other,
        file("root", "A.JSON"),
    ];
    assert_eq!(collect(&entries), strings(&["root/b.json", "root/A.JSON"]));
}

#[test]
fn collect_goes_by_the_name_and_gives_the_path() {
    let entries = vec![
        Node::File { name: "a.json".to_string(), path: "elsewhere".to_string() },
        Node::File { name: "notes".to_string(), path: "root/notes.json".to_string() },
    ];
    assert_eq!(collect(&entries), strings(&["elsewhere"]));
}

#[test]
fn collect_finds_nothing_where_nothing_is() {
    assert_eq!(collect(&vec![]), Vec::<String>::new());
    assert_eq!(collect(&vec![file("root", "a.txt"), Node::Other]), Vec::<String>::new());
}

#[test]
fn every_candidate_but_the_last_gets_a_comma() {
    let candidates = strings(&["d/a.json", "d/b.json", "d/c.json"]);
    assert_eq!(
        split(&candidates, &"d/d.json".to_string()),
        vec![part("d/a.json", true), part("d/b.json", true), part("d/c.json", false)]
    );
}

#[test]
fn the_merged_file_is_no_part_of_itself() {
    let candidates = strings(&["d/a.json", "d/d.json", "d/e.json"]);
    assert_eq!(
        split(&candidates, &"d/d.json".to_string()),
        vec![part("d/a.json", true), part("d/e.json", false)]
    );
}

#[test]
fn the_merged_file_counts_where_the_commas_are_set() {
    let candidates = strings(&["d/a.json", "d/b.json", "d/d.json"]);
    assert_eq!(
        split(&candidates, &"d/d.json".to_string()),
        vec![part("d/a.json", true), part("d/b.json", true)]
    );
    assert_eq!(split(&strings(&["d/d.json"]), &"d/d.json".to_string()), vec![]);
}

#[test]
fn the_merged_file_is_told_by_its_path_letter_for_letter() {
    let candidates = strings(&["d//d.json", "d/D.json", "d/d.json"]);
    assert_eq!(
        split(&candidates, &"d/d.json".to_string()),
        vec![part("d//d.json", true), part("d/D.json", true)]
    );
}

#[test]
fn no_candidates_no_parts() {
    assert_eq!(split(&vec![], &"d/d.json".to_string()), vec![]);
}

#[test]
fn a_tree_without_json_plans_nothing() {
    let tree = directory(
        "root",
        vec![
            file("root", "readme.txt"),
            directory("root/empty", vec![]),
            directory("root/sub", vec![file("root/sub", "notes.md"), Node::Other]),
        ],
    );
    assert_eq!(process(&tree), vec![]);
    assert_eq!(process(&directory("root", vec![])), vec![]);
}

#[test]
fn what_is_no_directory_plans_nothing() {
    assert_eq!(process(&file("root", "a.json")), vec![]);
    assert_eq!(process(&Node::Other), vec![]);
}

#[test]
fn two_files_are_merged_in_the_order_of_their_names() {
    let tree = directory("dir", vec![file("dir", "b.json"), file("dir", "a.json")]);
    assert_eq!(
        process(&tree),
        vec![job("dir/dir.json", vec![part("dir/a.json", true), part("dir/b.json", false)])]
    );
    let files = [("dir/b.json", "[1,2]"), ("dir/a.json", "[3]")];
    assert_eq!(run(&tree, &files), vec![wrote("dir/dir.json", "[3,1,2]")]);
}

#[test]
fn a_single_file_is_merged_without_a_comma() {
    let tree = directory("dir", vec![file("dir", "x.json")]);
    assert_eq!(process(&tree), vec![job("dir/dir.json", vec![part("dir/x.json", false)])]);
    assert_eq!(run(&tree, &[("dir/x.json", "[42]")]), vec![wrote("dir/dir.json", "[42]")]);
}

#[test]
fn a_second_run_does_not_read_what_the_first_has_written() {
    let first = directory("dir", vec![file("dir", "a.json"), file("dir", "b.json")]);
    let files = [("dir/a.json", "[1]"), ("dir/b.json", "[2]")];
    assert_eq!(run(&first, &files), vec![wrote("dir/dir.json", "[1,2]")]);

    let second = directory(
        "dir",
        vec![file("dir", "a.json"), file("dir", "b.json"), file("dir", "dir.json")],
    );
    let jobs = process(&second);
    assert_eq!(jobs.len(), 1);
    assert!(jobs[0].parts.iter().all(|part| part.path != jobs[0].output));
    assert_eq!(jobs[0].parts.len(), 2);
}

#[test]
fn a_second_run_counts_the_merged_file_among_the_candidates() {
    let files = [("dir/a.json", "[1]"), ("dir/b.json", "[2]"), ("dir/z.json", "[3]")];
    // The merged file sorts between its parts: the commas stay where they were.
    let tree = directory(
        "dir",
        vec![file("dir", "dir.json"), file("dir", "z.json"), file("dir", "a.json")],
    );
    assert_eq!(run(&tree, &files), vec![wrote("dir/dir.json", "[1,3]")]);
    // The merged file sorts last: the part before it is no longer the last candidate.
    let tree = directory(
        "dir",
        vec![file("dir", "dir.json"), file("dir", "b.json"), file("dir", "a.json")],
    );
    assert_eq!(run(&tree, &files), vec![wrote("dir/dir.json", "[1,2,]")]);
    // The merged file is the only candidate: it is written anew, empty.
    let tree = directory("dir", vec![file("dir", "dir.json")]);
    assert_eq!(run(&tree, &files), vec![wrote("dir/dir.json", "[]")]);
}

#[test]
fn an_empty_file_leaves_the_merged_file_framed() {
    let tree = directory("dir", vec![file("dir", "x.json")]);
    assert_eq!(run(&tree, &[("dir/x.json", "")]), vec![wrote("dir/dir.json", "[]")]);
    let tree = directory("dir", vec![file("dir", "a.json"), file("dir", "b.json")]);
    let files = [("dir/a.json", ""), ("dir/b.json", "[1]")];
    assert_eq!(run(&tree, &files), vec![wrote("dir/dir.json", "[,1]")]);
}

#[test]
fn a_subdirectory_is_merged_by_itself() {
    let tree = directory("root", vec![directory("root/sub", vec![file("root/sub", "leaf.json")])]);
    let files = [("root/sub/leaf.json", "[7]")];
    assert_eq!(run(&tree, &files), vec![wrote("root/sub/sub.json", "[7]")]);
}

#[test]
fn the_merged_file_of_a_subdirectory_is_not_merged_above() {
    let tree = directory(
        "root",
        vec![
            directory(
                "root/sub",
                vec![file("root/sub", "leaf.json"), file("root/sub", "sub.json")],
            ),
            file("root", "top.json"),
        ],
    );
    let files =
        [("root/sub/leaf.json", "[7]"), ("root/sub/sub.json", "[7]"), ("root/top.json", "[1]")];
    assert_eq!(
        run(&tree, &files),
        vec![wrote("root/sub/sub.json", "[7,]"), wrote("root/root.json", "[1]")]
    );
}

#[test]
fn subdirectories_come_before_the_directory_and_in_the_order_of_the_listing() {
    let tree = directory(
        "r",
        vec![
            file("r", "x.json"),
            directory("r/b", vec![file("r/b", "1.json")]),
            directory(
                "r/a",
                vec![
                    directory("r/a/deep", vec![file("r/a/deep", "2.json")]),
                    file("r/a", "3.json"),
                ],
            ),
        ],
    );
    let outputs: Vec<String> = process(&tree).into_iter().map(|job| job.output).collect();
    assert_eq!(outputs, strings(&["r/b/b.json", "r/a/deep/deep.json", "r/a/a.json", "r/r.json"]));
}

#[test]
fn the_order_of_the_listing_does_not_show_in_the_merged_file() {
    let names = ["c.json", "a.json", "B.json", "10.json", "9.json"];
    let files = [
        ("dir/c.json", "[\"c\"]"),
        ("dir/a.json", "[\"a\"]"),
        ("dir/B.json", "[\"B\"]"),
        ("dir/10.json", "[10]"),
        ("dir/9.json", "[9]"),
    ];
    let expected = vec![wrote("dir/dir.json", "[10,9,\"B\",\"a\",\"c\"]")];
    let forward: Vec<Node> = names.iter().map(|name| file("dir", name)).collect();
    let backward: Vec<Node> = names.iter().rev().map(|name| file("dir", name)).collect();
    let mixed: Vec<Node> = [3, 0, 4, 1, 2].iter().map(|&i| file("dir", names[i])).collect();
    assert_eq!(run(&directory("dir", forward), &files), expected);
    assert_eq!(run(&directory("dir", backward), &files), expected);
    assert_eq!(run(&directory("dir", mixed), &files), expected);
}

#[test]
fn the_candidates_are_the_sorted_json_paths() {
    let entries = vec![file("d", "b.json"), file("d", "c.txt"), file("d", "a.json")];
    let mut candidates = collect(&entries);
    sort(&mut candidates);
    assert_eq!(candidates, strings(&["d/a.json", "d/b.json"]));
}

#[test]
fn a_directory_is_merged_though_the_scan_misses_its_json() {
    let tree = directory("root", vec![file("root", "a.json"), directory("root/empty", vec![])]);
    assert_eq!(process(&tree), vec![job("root/root.json", vec![part("root/a.json", false)])]);
}

#[test]
fn an_entry_without_json_changes_nothing() {
    let with = directory(
        "root",
        vec![
            file("root", "b.json"),
            directory(
                "root/empty",
                vec![directory("root/empty/deeper", vec![file("root/empty/deeper", "notes.txt")])],
            ),
            directory("root/sub", vec![file("root/sub", "leaf.json")]),
            file("root", "readme.md"),
            file("root", "a.json"),
            Node::Other,
        ],
    );
    let without = directory(
        "root",
        vec![
            file("root", "b.json"),
            directory("root/sub", vec![file("root/sub", "leaf.json")]),
            file("root", "a.json"),
        ],
    );
    assert_eq!(process(&with), process(&without));
    assert_eq!(process(&with).len(), 2);
}

#[test]
fn a_directory_with_json_only_below_it_gets_no_merged_file() {
    let deep = directory("root/sub/deep", vec![file("root/sub/deep", "leaf.json")]);
    let tree = directory("root", vec![directory("root/sub", vec![deep])]);
    assert_eq!(
        process(&tree),
        vec![job("root/sub/deep/deep.json", vec![part("root/sub/deep/leaf.json", false)])]
    );
}

#[test]
fn a_later_run_reads_the_files_of_the_first() {
    let read = |tree: &Node| -> Vec<String> {
        let jobs = process(tree);
        assert_eq!(jobs.len(), 1);
        jobs.into_iter().next().unwrap().parts.into_iter().map(|part| part.path).collect()
    };
    for names in [vec!["a.json", "b.json"], vec!["x.json", "e.json", "c.json"], vec!["z.json"]] {
        let first: Vec<Node> = names.iter().map(|name| file("dir", name)).collect();
        let mut later: Vec<Node> = names.iter().map(|name| file("dir", name)).collect();
        later.push(file("dir", "dir.json"));
        assert_eq!(read(&directory("dir", later)), read(&directory("dir", first)));
    }
}

#[test]
fn every_part_is_a_json_file_of_the_directory_itself() {
    let tree = directory(
        "root",
        vec![
            directory(
                "root/sub",
                vec![file("root/sub", "leaf.json"), file("root/sub", "sub.json")],
            ),
            file("root", "top.json"),
            file("root", "notes.txt"),
        ],
    );
    let jobs = process(&tree);
    assert_eq!(jobs.len(), 2);
    assert_eq!(jobs[0].output, "root/sub/sub.json");
    assert_eq!(jobs[0].parts, vec![part("root/sub/leaf.json", true)]);
    assert_eq!(jobs[1].output, "root/root.json");
    assert_eq!(jobs[1].parts, vec![part("root/top.json", false)]);
}

#[test]
fn a_later_run_writes_a_comma_more_at_most() {
    let listings = [
        vec!["a.json", "b.json"],
        vec!["x.json", "e.json", "c.json"],
        vec!["z.json"],
        vec!["a.json"],
    ];
    for names in listings {
        let files: Vec<(String, String)> =
            names.iter().map(|name| (format!("dir/{}", name), format!("[\"{}\"]", name))).collect();
        let files: Vec<(&str, &str)> =
            files.iter().map(|(path, content)| (path.as_str(), content.as_str())).collect();
        let first: Vec<Node> = names.iter().map(|name| file("dir", name)).collect();
        let mut later: Vec<Node> = names.iter().map(|name| file("dir", name)).collect();
        later.insert(0, file("dir", "dir.json"));
        let first = run(&directory("dir", first), &files);
        let later = run(&directory("dir", later), &files);
        assert_eq!(first.len(), 1);
        assert_eq!(later.len(), 1);
        let (first, later) = (&first[0].1, &later[0].1);
        let with_comma = format!("{},]", &first[..first.len() - 1]);
        let last = names.iter().max().unwrap();
        if *last < "dir.json" {
            assert_eq!(*later, with_comma);
        } else {
            assert_eq!(later, first);
        }
    }
}
