//! What the scan reports, and what is there.

use crate::tree::Tree;
use vstd::prelude::*;

verus! {

/// The scan says yes for a listing exactly where some entry settles it: a
/// JSON file, or a directory for which the scan says yes, with no
/// directory behind it for which the scan says no.
pub proof fn law_answer_is_settled(entries: Seq<Tree>)
    ensures
        Tree::answer(entries) <==> exists|i: int| Tree::settles(entries, i),
    decreases entries.len(),
{
    if entries.len() > 0 {
        let before = entries.drop_last();
        let last = entries.len() - 1;
        law_answer_is_settled(before);
        if Tree::answer(entries) {
            if entries.last().is_json_file() || entries.last().reports_json() {
                assert(Tree::settles(entries, last));
            } else {
                let i = choose|i: int| Tree::settles(before, i);
                assert forall|j: int|
                    i < j < entries.len() && (#[trigger] entries[j]) is Directory implies entries[j]
                    .reports_json() by {
                    if j < last {
                        assert(before[j] == entries[j]);
                    }
                }
                assert(Tree::settles(entries, i));
            }
        }
        if exists|i: int| Tree::settles(entries, i) {
            let i = choose|i: int| Tree::settles(entries, i);
            if i < last {
                assert(Tree::settles(before, i));
            }
        }
    }
}

/// Where the scan says yes for a listing, one of the entries holds JSON.
pub proof fn law_answer_is_sound(entries: Seq<Tree>)
    requires
        Tree::answer(entries),
    ensures
        exists|i: int| 0 <= i < entries.len() && (#[trigger] entries[i]).holds_json(),
    decreases entries,
{
    if entries.last() is Directory {
        law_scan_is_sound(entries.last());
    } else if !entries.last().is_json_file() {
        law_answer_is_sound(entries.drop_last());
    }
}

/// The scan never reports JSON that is not there.
pub proof fn law_scan_is_sound(tree: Tree)
    ensures
        tree.reports_json() ==> tree.holds_json(),
    decreases tree,
{
    if tree.reports_json() {
        law_answer_is_sound(tree->entries);
    }
}

/// In a directory without subdirectories the scan misses nothing.
pub proof fn law_flat_scan_is_complete(entries: Seq<Tree>)
    requires
        forall|i: int| 0 <= i < entries.len() ==> !((#[trigger] entries[i]) is Directory),
    ensures
        Tree::answer(entries) <==> exists|i: int|
            0 <= i < entries.len() && (#[trigger] entries[i]).holds_json(),
{
    law_answer_is_settled(entries);
    if Tree::answer(entries) {
        law_answer_is_sound(entries);
    }
    if exists|i: int| 0 <= i < entries.len() && (#[trigger] entries[i]).holds_json() {
        let i = choose|i: int| 0 <= i < entries.len() && (#[trigger] entries[i]).holds_json();
        assert(Tree::settles(entries, i));
    }
}

} // verus!
