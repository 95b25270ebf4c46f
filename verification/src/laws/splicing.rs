//! What a merged file holds.
//!
//! The merge knows nothing of JSON, so little can be said of the merged
//! file as JSON. What can be said is said of its brackets, counted byte by
//! byte: a bracket inside a JSON string counts like any other.

use crate::splice::{framed, piece, trimmed, JobView, CLOSE_BRACKET, COMMA, OPEN_BRACKET};
use vstd::prelude::*;

verus! {

/// What a byte adds to the depth of brackets: one for `[`, one less for
/// `]`, nothing for any other byte. A bracket inside a JSON string counts
/// like any other.
pub open spec fn weight(byte: u8) -> int {
    if byte == OPEN_BRACKET {
        1
    } else if byte == CLOSE_BRACKET {
        -1
    } else {
        0
    }
}

/// How many more `[` than `]` stand in `bytes`.
pub open spec fn depth(bytes: Seq<u8>) -> int
    decreases bytes.len(),
{
    if bytes.len() == 0 {
        0
    } else {
        depth(bytes.drop_last()) + weight(bytes.last())
    }
}

/// The brackets of `bytes` match: as many close as open, and none closes
/// before its partner has opened.
pub open spec fn balanced(bytes: Seq<u8>) -> bool {
    &&& depth(bytes) == 0
    &&& forall|n: int| 0 <= n <= bytes.len() ==> depth(#[trigger] bytes.take(n)) >= 0
}

/// The elements of the first `n` files, one behind the other and nothing
/// between them.
pub open spec fn elements(contents: Seq<Seq<u8>>, n: nat) -> Seq<u8>
    decreases n,
{
    if n == 0 {
        Seq::empty()
    } else {
        elements(contents, (n - 1) as nat) + trimmed(contents[n - 1])
    }
}

/// The least depth that `bytes` reach on the way, from nothing to all of
/// them.
spec fn low(bytes: Seq<u8>) -> int
    decreases bytes.len(),
{
    if bytes.len() == 0 {
        0
    } else if depth(bytes) < low(bytes.drop_last()) {
        depth(bytes)
    } else {
        low(bytes.drop_last())
    }
}

/// No depth on the way lies under the least, and the least is that of the
/// start or lower.
proof fn lemma_low_is_least(bytes: Seq<u8>)
    ensures
        low(bytes) <= 0,
        low(bytes) <= depth(bytes),
        forall|n: int| 0 <= n <= bytes.len() ==> depth(#[trigger] bytes.take(n)) >= low(bytes),
    decreases bytes.len(),
{
    if bytes.len() > 0 {
        let before = bytes.drop_last();
        lemma_low_is_least(before);
        assert forall|n: int| 0 <= n <= bytes.len() implies depth(#[trigger] bytes.take(n))
            >= low(bytes) by {
            if n < bytes.len() {
                assert(bytes.take(n) =~= before.take(n));
            } else {
                assert(bytes.take(n) =~= bytes);
            }
        }
    }
}

/// Where no depth on the way is below zero, the least is not.
proof fn lemma_low_from_prefixes(bytes: Seq<u8>)
    requires
        forall|n: int| 0 <= n <= bytes.len() ==> depth(#[trigger] bytes.take(n)) >= 0,
    ensures
        low(bytes) >= 0,
    decreases bytes.len(),
{
    if bytes.len() > 0 {
        let before = bytes.drop_last();
        assert(bytes.take(bytes.len() as int) =~= bytes);
        assert forall|n: int| 0 <= n <= before.len() implies depth(#[trigger] before.take(n))
            >= 0 by {
            assert(bytes.take(n) =~= before.take(n));
        }
        lemma_low_from_prefixes(before);
    }
}

/// Brackets match where the depth ends at zero and never goes below.
proof fn lemma_balanced_by_low(bytes: Seq<u8>)
    ensures
        balanced(bytes) <==> depth(bytes) == 0 && low(bytes) >= 0,
{
    lemma_low_is_least(bytes);
    if balanced(bytes) {
        lemma_low_from_prefixes(bytes);
    }
}

/// The depth of a single byte is its weight.
proof fn lemma_depth_of_one(byte: u8)
    ensures
        depth(seq![byte]) == weight(byte),
        low(seq![byte]) == if weight(byte) < 0 {
            weight(byte)
        } else {
            0
        },
{
    assert(seq![byte].drop_last() =~= Seq::empty());
    assert(depth(Seq::<u8>::empty()) == 0);
    assert(low(Seq::<u8>::empty()) == 0);
}

/// The depth of two byte strings, one behind the other, is the sum of
/// their depths.
pub proof fn lemma_depth_adds(a: Seq<u8>, b: Seq<u8>)
    ensures
        depth(a + b) == depth(a) + depth(b),
    decreases b.len(),
{
    if b.len() > 0 {
        lemma_depth_adds(a, b.drop_last());
        assert((a + b).drop_last() =~= a + b.drop_last());
    }
}

/// The least depth of two byte strings, one behind the other: that of
/// the first, or that of the second from where the first has ended.
proof fn lemma_low_adds(a: Seq<u8>, b: Seq<u8>)
    ensures
        low(a + b) == if depth(a) + low(b) < low(a) {
            depth(a) + low(b)
        } else {
            low(a)
        },
    decreases b.len(),
{
    lemma_low_is_least(a);
    if b.len() > 0 {
        lemma_low_adds(a, b.drop_last());
        lemma_depth_adds(a, b);
        assert((a + b).drop_last() =~= a + b.drop_last());
    }
}

/// Two byte strings with matching brackets, one behind the other, have
/// matching brackets.
pub proof fn lemma_balanced_adds(a: Seq<u8>, b: Seq<u8>)
    requires
        balanced(a),
        balanced(b),
    ensures
        balanced(a + b),
{
    lemma_balanced_by_low(a);
    lemma_balanced_by_low(b);
    lemma_balanced_by_low(a + b);
    lemma_depth_adds(a, b);
    lemma_low_adds(a, b);
}

/// Whether brackets around `bytes` match is a matter of where the depth
/// of `bytes` ends and of how low it goes.
proof fn lemma_framed_by_low(bytes: Seq<u8>)
    ensures
        balanced(framed(bytes)) <==> depth(bytes) == 0 && low(bytes) >= -1,
{
    let opened = seq![OPEN_BRACKET] + bytes;
    lemma_depth_of_one(OPEN_BRACKET);
    lemma_depth_of_one(CLOSE_BRACKET);
    lemma_depth_adds(seq![OPEN_BRACKET], bytes);
    lemma_low_adds(seq![OPEN_BRACKET], bytes);
    lemma_depth_adds(opened, seq![CLOSE_BRACKET]);
    lemma_low_adds(opened, seq![CLOSE_BRACKET]);
    lemma_low_is_least(bytes);
    lemma_balanced_by_low(framed(bytes));
}

/// The commas of a merged file do not show in its depth.
proof fn lemma_commas_weigh_nothing(job: JobView, contents: Seq<Seq<u8>>, n: nat)
    requires
        n <= contents.len(),
        contents.len() == job.parts.len(),
    ensures
        depth(job.spliced(contents, n)) == depth(elements(contents, n)),
        low(job.spliced(contents, n)) == low(elements(contents, n)),
    decreases n,
{
    if n > 0 {
        let before = (n - 1) as nat;
        let added = trimmed(contents[n - 1]);
        let with_comma = piece(contents[n - 1], job.parts[n - 1].comma);
        lemma_commas_weigh_nothing(job, contents, before);
        lemma_low_is_least(added);
        if job.parts[n - 1].comma {
            assert(with_comma =~= added + seq![COMMA]);
            lemma_depth_of_one(COMMA);
            lemma_depth_adds(added, seq![COMMA]);
            lemma_low_adds(added, seq![COMMA]);
        }
        lemma_depth_adds(job.spliced(contents, before), with_comma);
        lemma_low_adds(job.spliced(contents, before), with_comma);
        lemma_depth_adds(elements(contents, before), added);
        lemma_low_adds(elements(contents, before), added);
    }
}

/// Files whose elements have matching brackets have them still when the
/// elements stand one behind the other.
proof fn lemma_elements_are_balanced(contents: Seq<Seq<u8>>, n: nat)
    requires
        n <= contents.len(),
        forall|i: int| 0 <= i < contents.len() ==> balanced(trimmed(#[trigger] contents[i])),
    ensures
        balanced(elements(contents, n)),
    decreases n,
{
    if n > 0 {
        lemma_elements_are_balanced(contents, (n - 1) as nat);
        lemma_balanced_adds(elements(contents, (n - 1) as nat), trimmed(contents[n - 1]));
    }
}

/// A file without content adds nothing of its own: its comma, where it
/// has one, and no byte else.
pub proof fn law_empty_content_adds_its_comma(comma: bool)
    ensures
        piece(Seq::empty(), comma) == if comma {
            seq![COMMA]
        } else {
            Seq::<u8>::empty()
        },
{
}

/// Whatever the contents, a merged file opens with `[` and closes with
/// `]`, and these are two bytes.
pub proof fn law_merged_is_framed(job: JobView, contents: Seq<Seq<u8>>)
    ensures
        job.merged(contents).len() >= 2,
        job.merged(contents).first() == OPEN_BRACKET,
        job.merged(contents).last() == CLOSE_BRACKET,
{
}

/// The brackets of a merged file match exactly where they match in the
/// array of the elements alone: neither a comma nor a file without
/// elements can unbalance a merged file, or balance one.
pub proof fn law_balance_is_that_of_the_elements(job: JobView, contents: Seq<Seq<u8>>)
    requires
        contents.len() == job.parts.len(),
    ensures
        balanced(job.merged(contents)) <==> balanced(framed(elements(contents, contents.len()))),
{
    lemma_commas_weigh_nothing(job, contents, contents.len());
    lemma_framed_by_low(job.spliced(contents, job.parts.len()));
    lemma_framed_by_low(elements(contents, contents.len()));
}

/// Merging keeps the balance: where the brackets match in the elements of
/// every file, they match in the merged file. A file without content is
/// such a file.
pub proof fn law_merging_keeps_the_balance(job: JobView, contents: Seq<Seq<u8>>)
    requires
        contents.len() == job.parts.len(),
        forall|i: int| 0 <= i < contents.len() ==> balanced(trimmed(#[trigger] contents[i])),
    ensures
        balanced(job.merged(contents)),
        balanced(trimmed(Seq::empty())),
{
    let all = elements(contents, contents.len());
    lemma_elements_are_balanced(contents, contents.len());
    lemma_balanced_by_low(all);
    lemma_framed_by_low(all);
    law_balance_is_that_of_the_elements(job, contents);
}

} // verus!
