//! Whether a tree is worth merging.
//!
//! The scan walks a directory once, front to back, and keeps one answer. A
//! JSON file turns the answer to yes. A subdirectory replaces the answer by
//! its own, in either direction: one without JSON in it, listed behind the
//! JSON files of its parent, turns a yes back to no. So the scan may miss
//! JSON that is there, and never reports JSON that is not. The merge itself
//! does not depend on the answer; only [`validate_path`] does.

use crate::name::is_json_name;
use crate::tree::{Node, Tree};
use vstd::prelude::*;
use vstd::string::StringExecFns;

verus! {

impl Tree {
    /// What the scan answers for this tree: no for anything but a
    /// directory, and for a directory the [answer](Tree::answer) after the
    /// last of its entries.
    pub open spec fn reports_json(self) -> bool
        decreases self,
    {
        match self {
            Tree::Directory { entries, .. } => Tree::answer(entries),
            _ => false,
        }
    }

    /// The answer that the scan holds after `entries`. It starts as no. A
    /// directory replaces it by its own answer, a JSON file turns it to
    /// yes, and any other entry leaves it as it is.
    pub open spec fn answer(entries: Seq<Tree>) -> bool
        decreases entries,
    {
        if entries.len() == 0 {
            false
        } else {
            match entries.last() {
                Tree::Directory { .. } => entries.last().reports_json(),
                Tree::File { .. } => Tree::answer(entries.drop_last())
                    || entries.last().is_json_file(),
                Tree::Other => Tree::answer(entries.drop_last()),
            }
        }
    }

    /// The entry at `i` says yes, and no directory behind it says no.
    pub open spec fn settles(entries: Seq<Tree>, i: int) -> bool {
        &&& 0 <= i < entries.len()
        &&& (entries[i].is_json_file() || entries[i].reports_json())
        &&& forall|j: int|
            #![trigger entries[j]]
            i < j < entries.len() && entries[j] is Directory ==> entries[j].reports_json()
    }

    /// Why [`validate_path`] refuses this tree.
    pub open spec fn refusal(self) -> Seq<char> {
        match self {
            Tree::Directory { path, .. } => "Path["@ + path
                + "] or sub-paths don't contain any Json files"@,
            _ => "Path should be a directory"@,
        }
    }
}

/// Scans `node` for JSON files, at any depth.
pub fn contains_json_file(node: &Node) -> (found: bool)
    ensures
        found == node@.reports_json(),
    decreases node,
{
    let mut found = false;
    if let Node::Directory { entries, .. } = node {
        let ghost listed = node@->entries;
        let mut i: usize = 0;
        while i < entries.len()
            invariant
                i <= entries.len(),
                node is Directory,
                node->entries == *entries,
                listed == entries.deep_view(),
                found == Tree::answer(listed.take(i as int)),
            decreases entries.len() - i,
        {
            assert(listed.take(i + 1).drop_last() =~= listed.take(i as int));
            match &entries[i] {
                Node::Directory { .. } => {
                    found = contains_json_file(&entries[i]);
                },
                Node::File { name, .. } => {
                    if !found {
                        found = is_json_name(name.as_str());
                    }
                },
                Node::Other => {},
            }
            i += 1;
        }
        assert(listed.take(i as int) =~= listed);
    }
    found
}

/// Accepts a tree to merge: a directory for which the scan reports JSON.
/// Anything else is refused with the reason.
pub fn validate_path(node: &Node) -> (r: Result<(), String>)
    ensures
        r is Ok <==> node@ is Directory && node@.reports_json(),
        r matches Err(reason) ==> reason@ == node@.refusal(),
{
    match node {
        Node::Directory { path, .. } => {
            if contains_json_file(node) {
                Ok(())
            } else {
                Err(
                    String::from_str("Path[").concat(path.as_str()).concat(
                        "] or sub-paths don't contain any Json files",
                    ),
                )
            }
        },
        _ => Err(String::from_str("Path should be a directory")),
    }
}

} // verus!
