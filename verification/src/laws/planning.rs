//! Which files are written, and from which files.

use crate::order::{lemma_path_order_total, path_order, sorted};
use crate::plan::{candidates, json_paths, lists_json_file, parts, parts_among};
use crate::splice::{framed, JobView, PartView, COMMA};
use crate::tree::Tree;
use vstd::prelude::*;
use vstd::seq_lib::{group_to_multiset_ensures, lemma_sorted_unique};

verus! {

/// Entries of which none holds JSON have no JSON file among them and call
/// for no merged file.
pub proof fn law_barren_entries_plan_nothing(entries: Seq<Tree>)
    requires
        forall|i: int| 0 <= i < entries.len() ==> !(#[trigger] entries[i]).holds_json(),
    ensures
        json_paths(entries) == Seq::<Seq<char>>::empty(),
        Tree::plans(entries) == Seq::<JobView>::empty(),
    decreases entries,
{
    if entries.len() > 0 {
        let before = entries.drop_last();
        assert forall|i: int| 0 <= i < before.len() implies !(#[trigger] before[i]).holds_json()
        by {
            assert(before[i] == entries[i]);
        }
        law_barren_entries_plan_nothing(before);
        law_no_json_no_output(entries.last());
    }
}

/// Nothing is written for a tree that holds no JSON file: not into its
/// root, and not into any directory below.
pub proof fn law_no_json_no_output(tree: Tree)
    requires
        !tree.holds_json(),
    ensures
        tree.plan() == Seq::<JobView>::empty(),
    decreases tree,
{
    if tree is Directory {
        law_barren_entries_plan_nothing(tree->entries);
    }
}

/// Taking an entry out of a listing takes out its path, if it is a JSON
/// file, and its merged files, and leaves the rest as it was.
pub proof fn law_one_entry_less(entries: Seq<Tree>, k: int)
    requires
        0 <= k < entries.len(),
    ensures
        !entries[k].is_json_file() ==> json_paths(entries.remove(k)) == json_paths(entries),
        entries[k].is_json_file() ==> json_paths(entries.remove(k)).to_multiset().insert(
            entries[k]->File_path,
        ) == json_paths(entries).to_multiset(),
        entries[k].plan().len() == 0 ==> Tree::plans(entries.remove(k)) == Tree::plans(entries),
    decreases entries.len(),
{
    broadcast use group_to_multiset_ensures;

    if k == entries.len() - 1 {
        assert(Tree::plans(entries.drop_last()) + Seq::<JobView>::empty() =~= Tree::plans(
            entries.drop_last(),
        ));
    } else {
        let before = entries.drop_last();
        law_one_entry_less(before, k);
        assert(entries.remove(k).drop_last() =~= before.remove(k));
        if entries[k].is_json_file() && entries.last().is_json_file() {
            let path = entries[k]->File_path;
            let last = entries.last()->File_path;
            assert(json_paths(before.remove(k)).push(last).to_multiset().insert(path)
                =~= json_paths(before.remove(k)).to_multiset().insert(path).insert(last));
        }
    }
}

/// An entry that holds no JSON changes nothing: with it or without it,
/// the same merged files are written, from the same parts. No directory
/// gets a merged file on account of what lies below it.
pub proof fn law_barren_entry_changes_nothing(
    name: Seq<char>,
    path: Seq<char>,
    entries: Seq<Tree>,
    k: int,
)
    requires
        0 <= k < entries.len(),
        !entries[k].holds_json(),
    ensures
        (Tree::Directory { name, path, entries: entries.remove(k) }).plan() == (Tree::Directory {
            name,
            path,
            entries,
        }).plan(),
{
    law_no_json_no_output(entries[k]);
    law_one_entry_less(entries, k);
}

/// What holds of the parts that the first `n` candidates give: each is one
/// of the candidates, and none is the merged file.
proof fn lemma_parts_among(candidates: Seq<Seq<char>>, output: Seq<char>, n: nat)
    requires
        n <= candidates.len(),
    ensures
        forall|i: int|
            0 <= i < parts_among(candidates, output, n).len() ==> {
                &&& (#[trigger] parts_among(candidates, output, n)[i]).path != output
                &&& candidates.contains(parts_among(candidates, output, n)[i].path)
            },
    decreases n,
{
    if n > 0 {
        let fewer = parts_among(candidates, output, (n - 1) as nat);
        let these = parts_among(candidates, output, n);
        lemma_parts_among(candidates, output, (n - 1) as nat);
        assert forall|i: int| 0 <= i < these.len() implies {
            &&& (#[trigger] these[i]).path != output
            &&& candidates.contains(these[i].path)
        } by {
            if i < fewer.len() {
                assert(these[i] == fewer[i]);
            }
        }
    }
}

/// The merged file of a directory is never one of its own parts, even
/// where an earlier run has left it among the candidates: what was merged
/// once is not merged again.
pub proof fn law_output_is_no_part(candidates: Seq<Seq<char>>, output: Seq<char>)
    ensures
        forall|i: int|
            0 <= i < parts(candidates, output).len() ==> (#[trigger] parts(
                candidates,
                output,
            )[i]).path != output,
{
    lemma_parts_among(candidates, output, candidates.len());
}

/// Every part is one of the candidates.
pub proof fn law_parts_are_candidates(candidates: Seq<Seq<char>>, output: Seq<char>)
    ensures
        forall|i: int|
            0 <= i < parts(candidates, output).len() ==> candidates.contains(
                (#[trigger] parts(candidates, output)[i]).path,
            ),
{
    lemma_parts_among(candidates, output, candidates.len());
}

/// Every path among the JSON paths of a listing is the path of a JSON
/// file of that listing.
pub proof fn law_json_paths_are_listed(entries: Seq<Tree>, path: Seq<char>)
    requires
        json_paths(entries).contains(path),
    ensures
        lists_json_file(entries, path),
    decreases entries.len(),
{
    let last = entries.len() - 1;
    if entries[last].is_json_file() && entries[last]->File_path == path {
        assert(lists_json_file(entries, path));
    } else {
        let before = entries.drop_last();
        law_json_paths_are_listed(before, path);
        let i = choose|i: int|
            0 <= i < before.len() && (#[trigger] before[i]).is_json_file() && before[i]->File_path
                == path;
        assert(entries[i] == before[i]);
    }
}

/// A directory has a merged file exactly where a JSON file lies directly
/// in it, and every part of that merged file is such a file. Nothing of
/// what lies in a subdirectory, its merged file included, is read for the
/// directory above.
pub proof fn law_parts_lie_in_the_directory(name: Seq<char>, path: Seq<char>, entries: Seq<Tree>)
    ensures
        (Tree::Directory { name, path, entries }).job() is Some <==> exists|i: int|
            0 <= i < entries.len() && (#[trigger] entries[i]).is_json_file(),
        (Tree::Directory { name, path, entries }).job() matches Some(job) ==> forall|k: int|
            0 <= k < job.parts.len() ==> lists_json_file(entries, (#[trigger] job.parts[k]).path),
{
    let directory = Tree::Directory { name, path, entries };
    if exists|i: int| 0 <= i < entries.len() && (#[trigger] entries[i]).is_json_file() {
        let i = choose|i: int| 0 <= i < entries.len() && (#[trigger] entries[i]).is_json_file();
        broadcast use group_to_multiset_ensures;
        law_one_entry_less(entries, i);
        assert(json_paths(entries).to_multiset().count(entries[i]->File_path) > 0);
    }
    if directory.job() is Some {
        law_json_paths_are_listed(entries, json_paths(entries)[0]);
        let job = directory.job()->0;
        lemma_path_order_total();
        json_paths(entries).lemma_sort_by_ensures(path_order());
        law_parts_are_candidates(candidates(entries), job.output);
        assert forall|k: int| 0 <= k < job.parts.len() implies lists_json_file(
            entries,
            (#[trigger] job.parts[k]).path,
        ) by {
            law_json_paths_are_listed(entries, job.parts[k].path);
        }
    }
}

/// The candidates of a directory are its JSON paths, each as often as it
/// is listed, in sorted order.
pub proof fn law_candidates_are_sorted(entries: Seq<Tree>)
    ensures
        sorted(candidates(entries)),
        candidates(entries).to_multiset() == json_paths(entries).to_multiset(),
{
    lemma_path_order_total();
    json_paths(entries).lemma_sort_by_ensures(path_order());
}

/// Two listings of the same entries have the same JSON paths, each as
/// often in the one as in the other.
pub proof fn law_json_paths_of_a_relisting(entries: Seq<Tree>, relisted: Seq<Tree>)
    requires
        entries.to_multiset() == relisted.to_multiset(),
    ensures
        json_paths(entries).to_multiset() == json_paths(relisted).to_multiset(),
    decreases entries.len(),
{
    broadcast use group_to_multiset_ensures;

    if entries.len() == 0 {
        assert(relisted.to_multiset().len() == 0);
    } else {
        let last = entries.len() - 1;
        let entry = entries[last];
        assert(relisted.to_multiset().count(entry) > 0);
        let k = choose|k: int| 0 <= k < relisted.len() && relisted[k] == entry;
        assert(entries.remove(last) =~= entries.drop_last());
        law_json_paths_of_a_relisting(entries.drop_last(), relisted.remove(k));
        law_one_entry_less(relisted, k);
    }
}

/// The order of the candidates is that of their paths and owes nothing to
/// the order of the listing: the same entries, listed in any order, give
/// the same candidates.
pub proof fn law_listing_order_is_irrelevant(entries: Seq<Tree>, relisted: Seq<Tree>)
    requires
        entries.to_multiset() == relisted.to_multiset(),
    ensures
        candidates(entries) == candidates(relisted),
{
    law_json_paths_of_a_relisting(entries, relisted);
    law_candidates_are_sorted(entries);
    law_candidates_are_sorted(relisted);
    lemma_path_order_total();
    lemma_sorted_unique(candidates(entries), candidates(relisted), path_order());
}

/// The merged file of a directory owes nothing to the order of the
/// listing: not whether there is one, not its parts, not their commas.
pub proof fn law_merged_file_ignores_the_listing_order(
    name: Seq<char>,
    path: Seq<char>,
    entries: Seq<Tree>,
    relisted: Seq<Tree>,
)
    requires
        entries.to_multiset() == relisted.to_multiset(),
    ensures
        (Tree::Directory { name, path, entries }).job() == (Tree::Directory {
            name,
            path,
            entries: relisted,
        }).job(),
{
    broadcast use group_to_multiset_ensures;

    law_json_paths_of_a_relisting(entries, relisted);
    law_listing_order_is_irrelevant(entries, relisted);
    assert(json_paths(entries).to_multiset().len() == json_paths(relisted).to_multiset().len());
}

/// The parts of candidates that the merged file is not among, the
/// first `m` of them: every one is read, and the last of all alone goes
/// without a comma unless `closing` gives it one too.
spec fn all_read(candidates: Seq<Seq<char>>, m: int, closing: bool) -> Seq<PartView> {
    Seq::new(
        m as nat,
        |k: int| PartView { path: candidates[k], comma: closing || k + 1 < candidates.len() },
    )
}

/// Where the merged file is not among the candidates, every candidate is
/// a part.
proof fn lemma_parts_without_output(candidates: Seq<Seq<char>>, output: Seq<char>, n: nat)
    requires
        n <= candidates.len(),
        !candidates.contains(output),
    ensures
        parts_among(candidates, output, n) == all_read(candidates, n as int, false),
    decreases n,
{
    if n > 0 {
        lemma_parts_without_output(candidates, output, (n - 1) as nat);
    }
}

/// Where the merged file stands at `at` among candidates that it was not
/// among, the parts are the other candidates; and the last of them has a
/// comma exactly if the merged file stands behind it.
proof fn lemma_parts_around_output(
    candidates: Seq<Seq<char>>,
    output: Seq<char>,
    at: int,
    n: nat,
)
    requires
        0 <= at <= candidates.len(),
        n <= candidates.len() + 1,
        !candidates.contains(output),
    ensures
        parts_among(candidates.insert(at, output), output, n) == all_read(
            candidates,
            if n <= at {
                n as int
            } else {
                n - 1
            },
            at == candidates.len(),
        ),
    decreases n,
{
    let with = candidates.insert(at, output);
    let closing = at == candidates.len();
    if n > 0 {
        lemma_parts_around_output(candidates, output, at, (n - 1) as nat);
        if n - 1 < at {
            assert(with[n - 1] == candidates[n - 1]);
        } else if n - 1 > at {
            assert(with[n - 1] == candidates[n - 2]);
        }
    }
    assert(parts_among(with, output, n) =~= all_read(
        candidates,
        if n <= at {
            n as int
        } else {
            n - 1
        },
        closing,
    ));
}

/// There is a place for one more path among sorted paths.
proof fn lemma_place(paths: Seq<Seq<char>>, path: Seq<char>) -> (at: int)
    requires
        sorted(paths),
    ensures
        0 <= at <= paths.len(),
        sorted(paths.insert(at, path)),
    decreases paths.len(),
{
    lemma_path_order_total();
    if paths.len() == 0 {
        0
    } else {
        let before = paths.drop_last();
        let last = paths.last();
        assert forall|i: int| 0 <= i < before.len() implies #[trigger] path_order()(
            before[i],
            last,
        ) by {
            assert(path_order()(paths[i], paths[paths.len() - 1]));
        }
        if path_order()(last, path) {
            let with = paths.push(path);
            assert(with =~= paths.insert(paths.len() as int, path));
            assert forall|i: int, j: int| 0 <= i < j < with.len() implies #[trigger] path_order()(
                with[i],
                with[j],
            ) by {
                if j < paths.len() {
                    assert(path_order()(paths[i], paths[j]));
                } else if i < paths.len() - 1 {
                    assert(path_order()(before[i], last));
                }
            }
            paths.len() as int
        } else {
            assert(sorted(before)) by {
                assert forall|i: int, j: int| 0 <= i < j < before.len() implies #[trigger]
                    path_order()(before[i], before[j]) by {
                    assert(path_order()(paths[i], paths[j]));
                }
            }
            let at = lemma_place(before, path);
            let shorter = before.insert(at, path);
            let with = paths.insert(at, path);
            assert(with =~= shorter.push(last));
            assert forall|i: int, j: int| 0 <= i < j < with.len() implies #[trigger] path_order()(
                with[i],
                with[j],
            ) by {
                if j < shorter.len() {
                    assert(path_order()(shorter[i], shorter[j]));
                } else if i < at {
                    assert(path_order()(before[i], last));
                } else if i > at {
                    assert(path_order()(before[i - 1], last));
                }
            }
            at
        }
    }
}

/// A second run over a directory plans what the first has planned, with
/// one difference at most: where the merged file of the first run comes
/// behind all the others, the part that was the last now has a comma.
pub proof fn law_later_run_differs_by_a_comma(
    entries: Seq<Tree>,
    written: Tree,
    output: Seq<char>,
)
    requires
        written matches Tree::File { path, .. } && path == output,
        !json_paths(entries).contains(output),
    ensures
        ({
            let first = parts(candidates(entries), output);
            let later = parts(candidates(entries.push(written)), output);
            ||| later == first
            ||| first.len() > 0 && later == first.update(
                first.len() - 1,
                PartView { path: first.last().path, comma: true },
            )
        }),
{
    broadcast use group_to_multiset_ensures;

    let before = candidates(entries);
    let after = candidates(entries.push(written));
    let first = parts(before, output);
    let later = parts(after, output);
    law_candidates_are_sorted(entries);
    law_candidates_are_sorted(entries.push(written));
    assert(entries.push(written).drop_last() =~= entries);
    assert(!before.contains(output)) by {
        assert(before.to_multiset().count(output) == 0);
    }
    lemma_parts_without_output(before, output, before.len());
    if written.is_json_file() {
        let at = lemma_place(before, output);
        lemma_path_order_total();
        lemma_sorted_unique(after, before.insert(at, output), path_order());
        lemma_parts_around_output(before, output, at, after.len());
        if at == before.len() && first.len() > 0 {
            assert(later =~= first.update(
                first.len() - 1,
                PartView { path: first.last().path, comma: true },
            ));
        }
    }
}

/// What the first `n` parts add depends on their commas alone, not on
/// their paths nor on the parts behind them.
proof fn lemma_spliced_by_commas(one: JobView, other: JobView, contents: Seq<Seq<u8>>, n: nat)
    requires
        n <= one.parts.len(),
        n <= other.parts.len(),
        forall|k: int| 0 <= k < n ==> one.parts[k].comma == other.parts[k].comma,
    ensures
        one.spliced(contents, n) == other.spliced(contents, n),
    decreases n,
{
    if n > 0 {
        lemma_spliced_by_commas(one, other, contents, (n - 1) as nat);
    }
}

/// A second run over a directory writes the bytes that the first has
/// written, or one comma more, before the closing bracket. Run after run,
/// the merged file does not grow.
pub proof fn law_later_run_writes_a_comma_more_at_most(
    entries: Seq<Tree>,
    written: Tree,
    output: Seq<char>,
    contents: Seq<Seq<u8>>,
)
    requires
        written matches Tree::File { path, .. } && path == output,
        !json_paths(entries).contains(output),
    ensures
        ({
            let first = JobView { output, parts: parts(candidates(entries), output) };
            let later = JobView { output, parts: parts(candidates(entries.push(written)), output) };
            ||| later.merged(contents) == first.merged(contents)
            ||| later.merged(contents) == framed(
                first.spliced(contents, first.parts.len()).push(COMMA),
            )
        }),
{
    let first = JobView { output, parts: parts(candidates(entries), output) };
    let later = JobView { output, parts: parts(candidates(entries.push(written)), output) };
    law_later_run_differs_by_a_comma(entries, written, output);
    let n = first.parts.len();
    if later.parts != first.parts {
        let last = first.parts.last();
        assert(!last.comma) by {
            if last.comma {
                assert(later.parts =~= first.parts);
            }
        }
        lemma_spliced_by_commas(first, later, contents, (n - 1) as nat);
    }
}

} // verus!
