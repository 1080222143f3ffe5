use vstd::prelude::*;
use crate::query::Origin;

verus! {

/// The grammar a source text is read with: the baseline language, or the
/// extended language that is its superset.
#[derive(Clone, Copy, Debug, PartialEq, Eq, Structural)]
pub enum Dialect {
    Baseline,
    Extended,
}

impl Dialect {
    pub open spec fn spec_from_flag(is_extended: bool) -> Dialect {
        if is_extended {
            Dialect::Extended
        } else {
            Dialect::Baseline
        }
    }

    /// The extended dialect where `is_extended` holds, else the baseline one.
    pub fn from_flag(is_extended: bool) -> (r: Dialect)
        ensures
            r == Self::spec_from_flag(is_extended),
    {
        if is_extended {
            Dialect::Extended
        } else {
            Dialect::Baseline
        }
    }
}

/// One node of a syntax tree, stored in the tree's arena.
///
/// The arena lists the nodes in preorder, so the subtree of node `i` is the
/// index range `[i, subtree_end)`.
pub struct SyntaxNode {
    /// The node's kind, a label from the dialect's vocabulary.
    pub kind: String,
    /// The name of the field that binds this node to its parent, if any.
    pub field: Option<String>,
    /// The byte range `[start_byte, end_byte)` of the node in the source.
    pub start_byte: usize,
    pub end_byte: usize,
    /// The index of the parent node; `None` for the root only.
    pub parent: Option<usize>,
    /// One past the index of the last node of this node's subtree.
    pub subtree_end: usize,
}

/// A syntax tree: an arena of nodes in preorder, whose root is at index 0.
pub struct SyntaxTree {
    pub nodes: Vec<SyntaxNode>,
    /// The length in bytes of the parsed source.
    pub source_len: usize,
    /// Whether the parser met malformed input.
    pub has_error: bool,
    /// What the tree was parsed from.
    pub origin: Origin,
}

impl SyntaxTree {
    pub open spec fn spec_dialect(&self) -> Dialect {
        self.origin.spec_dialect()
    }

    pub open spec fn spec_source(&self) -> Seq<char> {
        self.origin.spec_source()
    }

    /// The dialect the source was parsed with.
    pub fn dialect(&self) -> (r: Dialect)
        ensures
            r == self.spec_dialect(),
    {
        self.origin.dialect()
    }

    /// The parsed source text.
    pub fn source(&self) -> (r: &str)
        ensures
            r@ == self.spec_source(),
    {
        self.origin.source()
    }

    pub open spec fn len(&self) -> int {
        self.nodes@.len() as int
    }

    pub open spec fn end(&self, i: int) -> int {
        self.nodes@[i].subtree_end as int
    }

    pub open spec fn kind_of(&self, i: int) -> Seq<char> {
        self.nodes@[i].kind@
    }

    /// Node `i` lies in the subtree rooted at node `n`.
    pub open spec fn in_subtree(&self, n: int, i: int) -> bool {
        n <= i < self.end(n)
    }

    /// The arena is a tree laid out in preorder: every subtree is a range of
    /// indices, subtrees nest, the parent of a node is the nearest node whose
    /// subtree encloses it, and the root spans the whole source. A node's
    /// bytes lie within its parent's, and a node ends before its next sibling
    /// starts.
    pub open spec fn wf(&self) -> bool {
        &&& self.len() > 0
        &&& self.nodes@[0].parent is None
        &&& self.end(0) == self.len()
        &&& self.nodes@[0].start_byte == 0
        &&& self.nodes@[0].end_byte == self.source_len
        &&& forall|i: int|
            0 <= i < self.len() ==> i < #[trigger] self.end(i) <= self.len()
        &&& forall|i: int|
            0 <= i < self.len() ==> #[trigger] self.nodes@[i].start_byte
                <= self.nodes@[i].end_byte <= self.source_len
        &&& forall|i: int, j: int|
            #![trigger self.end(i), self.end(j)]
            0 <= i < self.len() && i < j < self.end(i) ==> self.end(j) <= self.end(i)
        &&& forall|i: int|
            0 < i < self.len() ==> self.parent_ok(i, #[trigger] self.nodes@[i].parent)
        &&& forall|i: int, s: int|
            #![trigger self.end(i), self.nodes@[s]]
            0 < i < s < self.len() && s == self.end(i) && self.nodes@[s].parent
                == self.nodes@[i].parent ==> self.nodes@[i].end_byte <= self.nodes@[s].start_byte
    }

    /// `parent` is the nearest node before `i` whose subtree holds `i`, and
    /// its byte range holds that of `i`.
    pub open spec fn parent_ok(&self, i: int, parent: Option<usize>) -> bool {
        &&& parent is Some
        &&& parent->0 < i < self.end(parent->0 as int)
        &&& forall|j: int| parent->0 < j < i ==> #[trigger] self.end(j) <= i
        &&& self.nodes@[parent->0 as int].start_byte <= self.nodes@[i].start_byte
        &&& self.nodes@[i].end_byte <= self.nodes@[parent->0 as int].end_byte
    }

    /// The first child of node `i`: the node right after it, if its subtree
    /// holds more than `i` itself.
    pub open spec fn spec_first_child(&self, i: int) -> Option<usize> {
        if self.end(i) > i + 1 {
            Some((i + 1) as usize)
        } else {
            None
        }
    }

    /// The next sibling of node `i`: the node right after its subtree, if that
    /// node still lies in the parent's subtree.
    pub open spec fn spec_next_sibling(&self, i: int) -> Option<usize> {
        match self.nodes@[i].parent {
            Some(p) => if self.end(i) < self.end(p as int) {
                Some(self.nodes@[i].subtree_end)
            } else {
                None
            },
            None => None,
        }
    }

    /// The arena is in preorder: a node's first child comes right after it
    /// and lies within its bytes, and its next sibling comes after its whole
    /// subtree, shares its parent and starts where it has ended or later.
    pub proof fn lemma_preorder_links(&self, i: int)
        requires
            self.wf(),
            0 <= i < self.len(),
        ensures
            self.spec_first_child(i) matches Some(c) ==> c == i + 1 && self.in_subtree(
                i,
                c as int,
            ) && self.nodes@[c as int].parent == Some(i as usize) && self.nodes@[i].start_byte
                <= self.nodes@[c as int].start_byte && self.nodes@[c as int].end_byte
                <= self.nodes@[i].end_byte,
            self.spec_next_sibling(i) matches Some(s) ==> {
                &&& s < self.len()
                &&& forall|j: int| self.in_subtree(i, j) ==> j < s
                &&& self.nodes@[s as int].parent == self.nodes@[i].parent
                &&& self.nodes@[i].end_byte <= self.nodes@[s as int].start_byte
            },
    {
        if let Some(c) = self.spec_first_child(i) {
            assert(self.parent_ok(c as int, self.nodes@[c as int].parent));
        }
        if let Some(s) = self.spec_next_sibling(i) {
            let p = self.nodes@[i].parent->0 as int;
            assert(self.parent_ok(i, self.nodes@[i].parent));
            let s = s as int;
            assert(s < self.end(p) <= self.len());
            assert(self.parent_ok(s, self.nodes@[s].parent));
            let q = self.nodes@[s].parent->0 as int;
            if q < p {
                assert(self.end(p) <= s);
            } else if q > p {
                if q < i {
                    assert(self.end(q) <= i);
                } else if q == i {
                } else {
                    assert(self.end(q) <= self.end(i));
                }
            }
            assert(self.end(i) == s);
        }
    }

    /// The number of nodes.
    pub fn node_count(&self) -> (r: usize)
        ensures
            r == self.len(),
    {
        self.nodes.len()
    }

    /// The root node's index.
    pub fn root(&self) -> (r: usize)
        ensures
            r == 0,
    {
        0
    }

    /// The first child of node `i`, if it has children.
    pub fn first_child(&self, i: usize) -> (r: Option<usize>)
        requires
            self.wf(),
            i < self.len(),
        ensures
            r == self.spec_first_child(i as int),
    {
        let e = self.nodes[i].subtree_end;
        if e > i + 1 {
            Some(i + 1)
        } else {
            None
        }
    }

    /// The next sibling of node `i`, if it has one.
    pub fn next_sibling(&self, i: usize) -> (r: Option<usize>)
        requires
            self.wf(),
            i < self.len(),
        ensures
            r == self.spec_next_sibling(i as int),
    {
        match self.nodes[i].parent {
            Some(p) => {
                assert(p < i);
                if self.nodes[i].subtree_end < self.nodes[p].subtree_end {
                    Some(self.nodes[i].subtree_end)
                } else {
                    None
                }
            },
            None => None,
        }
    }

    /// The parent of node `i`, if it is not the root.
    pub fn parent(&self, i: usize) -> (r: Option<usize>)
        requires
            i < self.len(),
        ensures
            r == self.nodes@[i as int].parent,
    {
        self.nodes[i].parent
    }
}

} // verus!
