//! The order in which the files of a directory are merged.
//!
//! Paths are ordered as strings are: byte by byte over their UTF-8 encoding,
//! a proper prefix before what it is a prefix of. The order knows nothing of
//! numbers or of case: `10.json` comes before `9.json`, `B.json` before
//! `a.json`.

use vstd::prelude::*;
use vstd::relations::{sorted_by, total_ordering};
use vstd::seq_lib::{group_to_multiset_ensures, lemma_sorted_unique};
use vstd::utf8::{encode_utf8, encode_utf8_decode_utf8};

verus! {

/// Lexicographic order on byte strings.
pub open spec fn lex_le(a: Seq<u8>, b: Seq<u8>) -> bool
    decreases a.len(),
{
    if a.len() == 0 {
        true
    } else if b.len() == 0 {
        false
    } else if a.first() != b.first() {
        a.first() < b.first()
    } else {
        lex_le(a.drop_first(), b.drop_first())
    }
}

/// `a` is `b` or comes before it.
pub open spec fn path_le(a: Seq<char>, b: Seq<char>) -> bool {
    lex_le(encode_utf8(a), encode_utf8(b))
}

/// [`path_le`] as a relation, for the lemmas of `vstd` on sorted sequences.
pub open spec fn path_order() -> spec_fn(Seq<char>, Seq<char>) -> bool {
    |a: Seq<char>, b: Seq<char>| path_le(a, b)
}

/// Every path of `paths` is followed only by paths that do not come
/// before it.
pub open spec fn sorted(paths: Seq<Seq<char>>) -> bool {
    sorted_by(paths, path_order())
}

/// A byte string does not come after itself.
proof fn lemma_lex_le_reflexive(a: Seq<u8>)
    ensures
        lex_le(a, a),
    decreases a.len(),
{
    if a.len() > 0 {
        lemma_lex_le_reflexive(a.drop_first());
    }
}

/// Two byte strings that each come no later than the other are equal.
proof fn lemma_lex_le_antisymmetric(a: Seq<u8>, b: Seq<u8>)
    requires
        lex_le(a, b),
        lex_le(b, a),
    ensures
        a == b,
    decreases a.len(),
{
    if a.len() > 0 {
        lemma_lex_le_antisymmetric(a.drop_first(), b.drop_first());
        assert(a =~= seq![a.first()] + a.drop_first());
    }
}

/// What comes no later than a second, which comes no later than a
/// third, comes no later than the third.
proof fn lemma_lex_le_transitive(a: Seq<u8>, b: Seq<u8>, c: Seq<u8>)
    requires
        lex_le(a, b),
        lex_le(b, c),
    ensures
        lex_le(a, c),
    decreases a.len(),
{
    if a.len() > 0 && a.first() == b.first() && b.first() == c.first() {
        lemma_lex_le_transitive(a.drop_first(), b.drop_first(), c.drop_first());
    }
}

/// Of two byte strings one comes no later than the other.
proof fn lemma_lex_le_connected(a: Seq<u8>, b: Seq<u8>)
    ensures
        lex_le(a, b) || lex_le(b, a),
    decreases a.len(),
{
    if a.len() > 0 && b.len() > 0 && a.first() == b.first() {
        lemma_lex_le_connected(a.drop_first(), b.drop_first());
    }
}

/// Two paths that each come no later than the other are one path: no two
/// strings share an encoding.
proof fn lemma_path_le_antisymmetric(a: Seq<char>, b: Seq<char>)
    requires
        path_le(a, b),
        path_le(b, a),
    ensures
        a == b,
{
    lemma_lex_le_antisymmetric(encode_utf8(a), encode_utf8(b));
    encode_utf8_decode_utf8(a);
    encode_utf8_decode_utf8(b);
}

/// The order of paths is total: any two paths compare, and only equal
/// paths compare both ways.
pub proof fn lemma_path_order_total()
    ensures
        total_ordering(path_order()),
{
    let r = path_order();
    assert forall|a: Seq<char>| #[trigger] r(a, a) by {
        lemma_lex_le_reflexive(encode_utf8(a));
    }
    assert forall|a: Seq<char>, b: Seq<char>| #[trigger] r(a, b) && #[trigger] r(b, a) implies a
        == b by {
        lemma_path_le_antisymmetric(a, b);
    }
    assert forall|a: Seq<char>, b: Seq<char>, c: Seq<char>| #[trigger]
        r(a, b) && #[trigger] r(b, c) implies r(a, c) by {
        lemma_lex_le_transitive(encode_utf8(a), encode_utf8(b), encode_utf8(c));
    }
    assert forall|a: Seq<char>, b: Seq<char>| #[trigger] r(a, b) || #[trigger] r(b, a) by {
        lemma_lex_le_connected(encode_utf8(a), encode_utf8(b));
    }
}

/// Whether `a` is `b` or comes before it.
pub fn in_order(a: &str, b: &str) -> (r: bool)
    ensures
        r == path_le(a@, b@),
{
    let x = a.as_bytes();
    let y = b.as_bytes();
    let mut i: usize = 0;
    assert(x@.skip(0) =~= x@ && y@.skip(0) =~= y@);
    while i < x.len() && i < y.len()
        invariant
            i <= x.len(),
            i <= y.len(),
            x@ == encode_utf8(a@),
            y@ == encode_utf8(b@),
            lex_le(x@, y@) == lex_le(x@.skip(i as int), y@.skip(i as int)),
        decreases x.len() - i,
    {
        assert(x@.skip(i as int).drop_first() =~= x@.skip(i + 1));
        assert(y@.skip(i as int).drop_first() =~= y@.skip(i + 1));
        if x[i] != y[i] {
            return x[i] < y[i];
        }
        i += 1;
    }
    x.len() <= y.len()
}

/// Puts `path` among the sorted `paths`, behind every path that does not
/// come after it.
fn insert_sorted(paths: &mut Vec<String>, path: String)
    requires
        sorted(old(paths).deep_view()),
    ensures
        sorted(final(paths).deep_view()),
        final(paths).deep_view().to_multiset() == old(paths).deep_view().to_multiset().insert(
            path@,
        ),
{
    let ghost before = paths.deep_view();
    let mut low: usize = 0;
    let mut high: usize = paths.len();
    proof {
        lemma_path_order_total();
    }
    while low < high
        invariant
            low <= high <= paths.len(),
            paths.deep_view() == before,
            sorted(before),
            total_ordering(path_order()),
            forall|i: int| 0 <= i < low ==> path_le(#[trigger] before[i], path@),
            forall|i: int| high <= i < before.len() ==> !path_le(#[trigger] before[i], path@),
        decreases high - low,
    {
        let middle = low + (high - low) / 2;
        if in_order(paths[middle].as_str(), path.as_str()) {
            assert forall|i: int| 0 <= i < middle + 1 implies path_le(
                #[trigger] before[i],
                path@,
            ) by {
                if i < middle {
                    assert(path_order()(before[i], before[middle as int]));
                    assert(path_order()(before[middle as int], path@));
                }
            }
            low = middle + 1;
        } else {
            assert forall|i: int| middle <= i < before.len() implies !path_le(
                #[trigger] before[i],
                path@,
            ) by {
                if middle < i && path_le(before[i], path@) {
                    assert(path_order()(before[middle as int], before[i]));
                    assert(path_order()(before[i], path@));
                }
            }
            high = middle;
        }
    }
    let ghost value = path@;
    paths.insert(low, path);
    proof {
        let after = paths.deep_view();
        assert(after =~= before.insert(low as int, value));
        broadcast use group_to_multiset_ensures;
        assert forall|i: int, j: int| 0 <= i < j < after.len() implies #[trigger] path_order()(
            after[i],
            after[j],
        ) by {
            if i == low {
                assert(path_order()(before[j - 1], value) || path_order()(value, before[j - 1]));
            }
        }
    }
}

/// Sorts `paths`. Paths that are listed twice stay twice.
pub fn sort(paths: &mut Vec<String>)
    ensures
        final(paths).deep_view() == old(paths).deep_view().sort_by(path_order()),
{
    let ghost unsorted = paths.deep_view();
    let mut rest: Vec<String> = Vec::new();
    core::mem::swap(paths, &mut rest);
    proof {
        broadcast use group_to_multiset_ensures;
        assert(paths.deep_view().to_multiset().add(rest.deep_view().to_multiset())
            =~= unsorted.to_multiset());
    }
    while rest.len() > 0
        invariant
            sorted(paths.deep_view()),
            paths.deep_view().to_multiset().add(rest.deep_view().to_multiset())
                == unsorted.to_multiset(),
        decreases rest.len(),
    {
        let ghost waiting = rest.deep_view();
        let ghost placed = paths.deep_view();
        let path = rest.pop().unwrap();
        proof {
            broadcast use group_to_multiset_ensures;
            assert(waiting =~= rest.deep_view().push(path@));
        }
        insert_sorted(paths, path);
        proof {
            assert(paths.deep_view().to_multiset().add(rest.deep_view().to_multiset())
                =~= placed.to_multiset().add(waiting.to_multiset()));
        }
    }
    proof {
        broadcast use group_to_multiset_ensures;
        assert(paths.deep_view().to_multiset() =~= unsorted.to_multiset());
        lemma_path_order_total();
        unsorted.lemma_sort_by_ensures(path_order());
        lemma_sorted_unique(paths.deep_view(), unsorted.sort_by(path_order()), path_order());
    }
}

} // verus!
