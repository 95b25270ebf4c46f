//! Splicing the contents of JSON array files into one array.
//!
//! Nothing here parses JSON. A file's content loses one leading `[` and one
//! trailing `]`, where it has them, and what is left stands between the
//! brackets of the merged file, with commas between the files.

use vstd::prelude::*;
use vstd::slice::slice_subrange;

verus! {

/// The byte `[`.
pub const OPEN_BRACKET: u8 = 91;

/// The byte `]`.
pub const CLOSE_BRACKET: u8 = 93;

/// The byte `,`.
pub const COMMA: u8 = 44;

/// `content` without its first byte, if that is `[`.
pub open spec fn without_opening(content: Seq<u8>) -> Seq<u8> {
    if content.len() > 0 && content.first() == OPEN_BRACKET {
        content.drop_first()
    } else {
        content
    }
}

/// `content` without its last byte, if that is `]`.
pub open spec fn without_closing(content: Seq<u8>) -> Seq<u8> {
    if content.len() > 0 && content.last() == CLOSE_BRACKET {
        content.drop_last()
    } else {
        content
    }
}

/// The elements of a file: its content without the opening bracket, and
/// what is left of it without the closing bracket. An opening bracket that
/// is the whole content leaves nothing for the second step to look at.
pub open spec fn trimmed(content: Seq<u8>) -> Seq<u8> {
    without_closing(without_opening(content))
}

/// `bytes` between the brackets of an array.
pub open spec fn framed(bytes: Seq<u8>) -> Seq<u8> {
    seq![OPEN_BRACKET] + bytes + seq![CLOSE_BRACKET]
}

/// What one file adds to the merged array: its elements, and a comma where
/// `comma` says that more candidates follow.
pub open spec fn piece(content: Seq<u8>, comma: bool) -> Seq<u8> {
    if comma {
        trimmed(content).push(COMMA)
    } else {
        trimmed(content)
    }
}

/// Strips the outer brackets of `content`, by position alone.
pub fn trim(content: &[u8]) -> (elements: &[u8])
    ensures
        elements@ == trimmed(content@),
{
    let mut start: usize = 0;
    let mut end: usize = content.len();
    if end > 0 && content[0] == OPEN_BRACKET {
        start = 1;
    }
    if end > start && content[end - 1] == CLOSE_BRACKET {
        end = end - 1;
    }
    slice_subrange(content, start, end)
}

/// One file to read for a merged file.
#[derive(Debug, PartialEq, Eq)]
pub struct Part {
    /// Where the file is.
    pub path: String,
    /// Whether a comma follows its elements.
    pub comma: bool,
}

/// The mathematical value of a [`Part`].
pub struct PartView {
    pub path: Seq<char>,
    pub comma: bool,
}

/// One merged file to write.
#[derive(Debug, PartialEq, Eq)]
pub struct Job {
    /// Where the merged file goes.
    pub output: String,
    /// The files to read for it, in the order in which they are spliced.
    pub parts: Vec<Part>,
}

/// The mathematical value of a [`Job`].
pub struct JobView {
    pub output: Seq<char>,
    pub parts: Seq<PartView>,
}

impl View for Part {
    type V = PartView;

    open spec fn view(&self) -> PartView {
        PartView { path: self.path@, comma: self.comma }
    }
}

impl DeepView for Part {
    type V = PartView;

    open spec fn deep_view(&self) -> PartView {
        self.view()
    }
}

impl View for Job {
    type V = JobView;

    open spec fn view(&self) -> JobView {
        JobView { output: self.output@, parts: self.parts.deep_view() }
    }
}

impl DeepView for Job {
    type V = JobView;

    open spec fn deep_view(&self) -> JobView {
        self.view()
    }
}

impl JobView {
    /// What the first `n` parts add to the merged file, given the content
    /// of each.
    pub open spec fn spliced(self, contents: Seq<Seq<u8>>, n: nat) -> Seq<u8>
        decreases n,
    {
        if n == 0 {
            Seq::empty()
        } else {
            self.spliced(contents, (n - 1) as nat) + piece(
                contents[n - 1],
                self.parts[n - 1].comma,
            )
        }
    }

    /// The merged file: an opening bracket, what each part adds, a closing
    /// bracket.
    pub open spec fn merged(self, contents: Seq<Seq<u8>>) -> Seq<u8> {
        framed(self.spliced(contents, self.parts.len()))
    }
}

impl Job {
    /// The bytes of the merged file, from the contents of the files that
    /// [`Job::parts`] names, one content for each part and in that order.
    /// There is no merged file for any other number of contents.
    pub fn merge(&self, contents: &Vec<Vec<u8>>) -> (merged: Option<Vec<u8>>)
        ensures
            merged is Some <==> contents.len() == self.parts.len(),
            merged matches Some(bytes) ==> bytes@ == self@.merged(contents.deep_view()),
    {
        if contents.len() != self.parts.len() {
            return None;
        }
        let mut bytes: Vec<u8> = Vec::new();
        bytes.push(OPEN_BRACKET);
        let mut i: usize = 0;
        while i < self.parts.len()
            invariant
                i <= self.parts.len(),
                contents.len() == self.parts.len(),
                bytes@ == seq![OPEN_BRACKET] + self@.spliced(contents.deep_view(), i as nat),
            decreases self.parts.len() - i,
        {
            let elements = trim(contents[i].as_slice());
            bytes.extend_from_slice(elements);
            if self.parts[i].comma {
                bytes.push(COMMA);
            }
            i += 1;
        }
        bytes.push(CLOSE_BRACKET);
        Some(bytes)
    }
}

} // verus!
