//! A directory tree as it was listed.

use crate::name::json_name;
use vstd::prelude::*;

verus! {

/// One entry of a directory, with what lies below it.
///
/// A `path` is the string under which the entry is opened, a `name` the
/// last component of it. The entries of a directory stand in the order in
/// which the file system gave them; nothing is assumed of that order, nor
/// of how the paths of a directory and of its entries relate.
#[derive(Debug, PartialEq, Eq)]
pub enum Node {
    /// A regular file.
    File { name: String, path: String },
    /// A directory and its direct entries.
    Directory { name: String, path: String, entries: Vec<Node> },
    /// Anything that is neither: a socket, a link that leads nowhere, a
    /// path at which nothing is.
    Other,
}

/// The mathematical value of a [`Node`].
pub enum Tree {
    File { name: Seq<char>, path: Seq<char> },
    Directory { name: Seq<char>, path: Seq<char>, entries: Seq<Tree> },
    Other,
}

impl View for Node {
    type V = Tree;

    open spec fn view(&self) -> Tree
        decreases self,
    {
        match self {
            Node::File { name, path } => Tree::File { name: name@, path: path@ },
            Node::Directory { name, path, entries } => Tree::Directory {
                name: name@,
                path: path@,
                entries: Seq::new(
                    entries.len() as nat,
                    |i: int|
                        if 0 <= i < entries.len() {
                            entries[i].view()
                        } else {
                            Tree::Other
                        },
                ),
            },
            Node::Other => Tree::Other,
        }
    }
}

impl DeepView for Node {
    type V = Tree;

    open spec fn deep_view(&self) -> Tree {
        self.view()
    }
}

impl Tree {
    /// A file whose name is that of a JSON file.
    pub open spec fn is_json_file(self) -> bool {
        self matches Tree::File { name, .. } && json_name(name)
    }

    /// A JSON file, or a directory with a JSON file anywhere below it.
    pub open spec fn holds_json(self) -> bool
        decreases self,
    {
        match self {
            Tree::File { name, .. } => json_name(name),
            Tree::Directory { entries, .. } => exists|i: int|
                #![trigger entries[i]]
                0 <= i < entries.len() && entries[i].holds_json(),
            Tree::Other => false,
        }
    }
}

} // verus!
