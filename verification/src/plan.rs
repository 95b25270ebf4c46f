//! Which merged files a tree calls for, and what goes into each.
//!
//! A directory is merged from the JSON files directly in it, and from
//! nothing else: what lies in a subdirectory goes into the merged file of
//! that subdirectory. The files are taken in the order of their paths,
//! whatever the order of the listing. The merged file of an earlier run
//! has a JSON name too and is listed with the others; it is counted among
//! them and not read. Where it comes last among them, the file before it
//! is no longer the last and gets a comma: the second run writes `[1,2,]`
//! where the first wrote `[1,2]`.

use crate::name::{is_json_name, json_suffix};
use crate::order::{path_order, sort};
use crate::splice::{Job, JobView, Part, PartView};
use crate::tree::{Node, Tree};
use vstd::prelude::*;
use vstd::string::StringExecFns;

verus! {

/// The paths of the JSON files among `entries`, in the order of the
/// listing.
pub open spec fn json_paths(entries: Seq<Tree>) -> Seq<Seq<char>>
    decreases entries.len(),
{
    if entries.len() == 0 {
        Seq::empty()
    } else if entries.last().is_json_file() {
        json_paths(entries.drop_last()).push(entries.last()->File_path)
    } else {
        json_paths(entries.drop_last())
    }
}

/// A JSON file at `path` is among `entries`.
pub open spec fn lists_json_file(entries: Seq<Tree>, path: Seq<char>) -> bool {
    exists|i: int|
        0 <= i < entries.len() && (#[trigger] entries[i]).is_json_file() && entries[i]->File_path
            == path
}

/// The candidates of a directory with these entries: the paths of its JSON
/// files, sorted.
pub open spec fn candidates(entries: Seq<Tree>) -> Seq<Seq<char>> {
    json_paths(entries).sort_by(path_order())
}

/// Where the merged file of a directory goes: into the directory, under
/// the directory's own name.
pub open spec fn merged_path(directory: Seq<char>, name: Seq<char>) -> Seq<char> {
    directory + seq!['/'] + name + json_suffix()
}

/// The parts that the first `n` candidates give. A candidate that is the
/// merged file itself gives none. Every other one is read, and is followed
/// by a comma unless it is the last of all the candidates, the merged file
/// counted.
pub open spec fn parts_among(candidates: Seq<Seq<char>>, output: Seq<char>, n: nat) -> Seq<
    PartView,
>
    decreases n,
{
    if n == 0 {
        Seq::empty()
    } else if candidates[n - 1] == output {
        parts_among(candidates, output, (n - 1) as nat)
    } else {
        parts_among(candidates, output, (n - 1) as nat).push(
            PartView { path: candidates[n - 1], comma: n < candidates.len() },
        )
    }
}

/// The parts of a merged file at `output`, from the candidates of its
/// directory.
pub open spec fn parts(candidates: Seq<Seq<char>>, output: Seq<char>) -> Seq<PartView> {
    parts_among(candidates, output, candidates.len())
}

impl Tree {
    /// The merged file of this directory itself, if it has candidates.
    pub open spec fn job(self) -> Option<JobView> {
        match self {
            Tree::Directory { name, path, entries } => if json_paths(entries).len() == 0 {
                None
            } else {
                Some(
                    JobView {
                        output: merged_path(path, name),
                        parts: parts(candidates(entries), merged_path(path, name)),
                    },
                )
            },
            _ => None,
        }
    }

    /// The merged files of this tree, in the order in which they are
    /// written: those of the subdirectories, in the order of the listing,
    /// before that of the directory itself.
    pub open spec fn plan(self) -> Seq<JobView>
        decreases self,
    {
        match self {
            Tree::Directory { entries, .. } => Tree::plans(entries) + match self.job() {
                Some(job) => seq![job],
                None => Seq::empty(),
            },
            _ => Seq::empty(),
        }
    }

    /// The merged files of `entries`, one entry after the other.
    pub open spec fn plans(entries: Seq<Tree>) -> Seq<JobView>
        decreases entries,
    {
        if entries.len() == 0 {
            Seq::empty()
        } else {
            Tree::plans(entries.drop_last()) + entries.last().plan()
        }
    }
}

/// Collects the paths of the JSON files among `entries`, as they are
/// listed.
pub fn collect(entries: &Vec<Node>) -> (paths: Vec<String>)
    ensures
        paths.deep_view() == json_paths(entries.deep_view()),
{
    let ghost listed = entries.deep_view();
    let mut paths: Vec<String> = Vec::new();
    let mut i: usize = 0;
    while i < entries.len()
        invariant
            i <= entries.len(),
            listed == entries.deep_view(),
            paths.deep_view() == json_paths(listed.take(i as int)),
        decreases entries.len() - i,
    {
        assert(listed.take(i + 1).drop_last() =~= listed.take(i as int));
        match &entries[i] {
            Node::File { name, path } => {
                if is_json_name(name.as_str()) {
                    paths.push(path.clone());
                }
            },
            _ => {},
        }
        i += 1;
    }
    assert(listed.take(i as int) =~= listed);
    paths
}

/// The path of the merged file of the directory at `directory`, whose
/// name is `name`.
pub fn output_path(directory: &str, name: &str) -> (output: String)
    ensures
        output@ == merged_path(directory@, name@),
{
    proof {
        reveal_strlit("/");
        reveal_strlit(".json");
    }
    String::from_str(directory).concat("/").concat(name).concat(".json")
}

/// Decides what is read for the merged file at `output`, and where the
/// commas go.
pub fn split(candidates: &Vec<String>, output: &String) -> (parts: Vec<Part>)
    ensures
        parts.deep_view() == self::parts(candidates.deep_view(), output@),
{
    let mut parts: Vec<Part> = Vec::new();
    let mut i: usize = 0;
    while i < candidates.len()
        invariant
            i <= candidates.len(),
            parts.deep_view() == parts_among(candidates.deep_view(), output@, i as nat),
        decreases candidates.len() - i,
    {
        if candidates[i] != *output {
            let part = Part { path: candidates[i].clone(), comma: i + 1 < candidates.len() };
            parts.push(part);
        }
        i += 1;
    }
    parts
}

/// Plans the merged files of a tree. Nothing is planned for a node that is
/// no directory.
pub fn process(node: &Node) -> (jobs: Vec<Job>)
    ensures
        jobs.deep_view() == node@.plan(),
    decreases node,
{
    let mut jobs: Vec<Job> = Vec::new();
    if let Node::Directory { name, path, entries } = node {
        let ghost listed = node@->entries;
        let mut i: usize = 0;
        while i < entries.len()
            invariant
                i <= entries.len(),
                node is Directory,
                node->entries == *entries,
                listed == entries.deep_view(),
                jobs.deep_view() == Tree::plans(listed.take(i as int)),
            decreases entries.len() - i,
        {
            assert(listed.take(i + 1).drop_last() =~= listed.take(i as int));
            let mut below = process(&entries[i]);
            jobs.append(&mut below);
            i += 1;
        }
        assert(listed.take(i as int) =~= listed);
        let mut candidates = collect(entries);
        if candidates.len() > 0 {
            sort(&mut candidates);
            let output = output_path(path.as_str(), name.as_str());
            let parts = split(&candidates, &output);
            jobs.push(Job { output, parts });
        }
    }
    jobs
}

} // verus!
