use vstd::prelude::*;
use vstd::string::StringSliceAdditionalSpecFns;
use vstd::utf8::{encode_utf8, is_char_boundary};
use crate::tree::SyntaxTree;

verus! {

broadcast use vstd::utf8::group_utf8_lib;

impl SyntaxTree {
    /// Node `c` is a direct child of `n` bound to field `name`.
    pub open spec fn is_field_child(&self, n: int, c: int, name: Seq<char>) -> bool {
        &&& 0 < c < self.len()
        &&& self.nodes@[c].parent == Some(n as usize)
        &&& self.nodes@[c].field is Some
        &&& self.nodes@[c].field->0@ == name
    }

    /// The leftmost direct child of `n` bound to field `name`, if any.
    pub open spec fn field_child(&self, n: int, name: Seq<char>) -> Option<int> {
        if exists|c: int| self.first_field_child_at(n, c, name) {
            Some(choose|c: int| self.first_field_child_at(n, c, name))
        } else {
            None
        }
    }

    pub open spec fn first_field_child_at(&self, n: int, c: int, name: Seq<char>) -> bool {
        &&& self.is_field_child(n, c, name)
        &&& forall|d: int| n < d < c ==> !#[trigger] self.is_field_child(n, d, name)
    }

    /// A child `c` of `n` ends at or before the end of `n`, and no node inside
    /// the subtree of `c` (other than `c`) is a child of `n`.
    proof fn lemma_child_subtree(&self, n: int, c: int, name: Seq<char>)
        requires
            self.wf(),
            0 <= n < self.len(),
            0 < c < self.len(),
            self.nodes@[c].parent == Some(n as usize),
        ensures
            n < c < self.end(n),
            self.end(c) <= self.end(n),
            forall|j: int| c < j < self.end(c) ==> !#[trigger] self.is_field_child(n, j, name),
    {
        assert(self.parent_ok(c, self.nodes@[c].parent));
        assert(self.end(c) <= self.end(n));
        assert forall|j: int| c < j < self.end(c) implies !#[trigger] self.is_field_child(
            n,
            j,
            name,
        ) by {
            if self.is_field_child(n, j, name) {
                assert(self.parent_ok(j, self.nodes@[j].parent));
                assert(self.end(c) <= j);
            }
        }
    }
}

/// Traversal state over one tree, confined to the subtree of `root`: it can
/// move down to a first child, across to a next sibling and up to a parent,
/// but never out of that subtree.
pub struct Cursor {
    pub root: usize,
    pub current: usize,
}

impl Cursor {
    pub open spec fn valid(&self, tree: &SyntaxTree) -> bool {
        &&& tree.wf()
        &&& self.root < tree.len()
        &&& tree.in_subtree(self.root as int, self.current as int)
    }

    /// A cursor at `node`, confined to its subtree.
    pub fn new(tree: &SyntaxTree, node: usize) -> (r: Cursor)
        requires
            tree.wf(),
            node < tree.len(),
        ensures
            r.valid(tree),
            r.root == node,
            r.current == node,
    {
        Cursor { root: node, current: node }
    }

    /// Moves to the first child of the current node, if it has one.
    pub fn goto_first_child(&mut self, tree: &SyntaxTree) -> (r: bool)
        requires
            old(self).valid(tree),
        ensures
            final(self).valid(tree),
            final(self).root == old(self).root,
            r == tree.spec_first_child(old(self).current as int) is Some,
            final(self).current == (if r {
                (old(self).current + 1) as usize
            } else {
                old(self).current
            }),
    {
        assert(tree.end(self.current as int) <= tree.end(self.root as int));
        match tree.first_child(self.current) {
            Some(c) => {
                self.current = c;
                true
            },
            None => false,
        }
    }

    /// Moves to the next sibling of the current node, unless the current node
    /// is the root of the cursor's subtree or has no next sibling.
    pub fn goto_next_sibling(&mut self, tree: &SyntaxTree) -> (r: bool)
        requires
            old(self).valid(tree),
        ensures
            final(self).valid(tree),
            final(self).root == old(self).root,
            r == (old(self).current != old(self).root && tree.spec_next_sibling(
                old(self).current as int,
            ) is Some),
            final(self).current == (if r {
                tree.nodes@[old(self).current as int].subtree_end
            } else {
                old(self).current
            }),
    {
        if self.current == self.root {
            return false;
        }
        let x = self.current;
        let p = tree.nodes[x].parent.unwrap();
        assert(tree.parent_ok(x as int, tree.nodes@[x as int].parent));
        if self.root > p {
            assert(tree.end(self.root as int) <= x);
        }
        assert(tree.end(p as int) <= tree.end(self.root as int));
        match tree.next_sibling(x) {
            Some(s) => {
                self.current = s;
                true
            },
            None => false,
        }
    }

    /// Moves to the parent of the current node, unless it is the root of the
    /// cursor's subtree.
    pub fn goto_parent(&mut self, tree: &SyntaxTree) -> (r: bool)
        requires
            old(self).valid(tree),
        ensures
            final(self).valid(tree),
            final(self).root == old(self).root,
            r == (old(self).current != old(self).root),
            r ==> Some(final(self).current) == tree.nodes@[old(self).current as int].parent,
            !r ==> final(self).current == old(self).current,
    {
        if self.current == self.root {
            return false;
        }
        let x = self.current;
        let p = tree.nodes[x].parent.unwrap();
        assert(tree.parent_ok(x as int, tree.nodes@[x as int].parent));
        if self.root > p {
            assert(tree.end(self.root as int) <= x);
        }
        self.current = p;
        true
    }

    /// Moves past the subtree of the current node, to the next node in
    /// preorder: climbs while there is no next sibling. Returns `false`, and
    /// stays on the cursor's root, once the root's subtree is exhausted.
    pub fn goto_next_subtree(&mut self, tree: &SyntaxTree) -> (r: bool)
        requires
            old(self).valid(tree),
        ensures
            final(self).valid(tree),
            final(self).root == old(self).root,
            r == (tree.end(old(self).current as int) < tree.end(old(self).root as int)),
            r ==> final(self).current == tree.nodes@[old(self).current as int].subtree_end,
    {
        let ghost start = self.current as int;
        loop
            invariant
                self.valid(tree),
                self.root == old(self).root,
                tree.end(self.current as int) == tree.end(start),
                start == old(self).current,
            decreases self.current,
        {
            let x = self.current;
            if self.goto_next_sibling(tree) {
                return true;
            }
            if x != self.root {
                let p = tree.nodes[x].parent.unwrap();
                assert(tree.parent_ok(x as int, tree.nodes@[x as int].parent));
                assert(tree.end(x as int) <= tree.end(p as int));
            }
            if !self.goto_parent(tree) {
                return false;
            }
        }
    }
}

/// Searches the subtree of `node` in preorder (a node before its children,
/// children left to right) for the first node of kind `kind`. The walk moves
/// a cursor down, to the next sibling, and back up, never above `node`; it
/// ends with `None` once the subtree is exhausted. Nodes of the error kind
/// that stand for malformed input are matched like any other kind.
pub fn find_node_by_type(tree: &SyntaxTree, node: usize, kind: &str) -> (r: Option<usize>)
    requires
        tree.wf(),
        node < tree.len(),
    ensures
        match r {
            Some(i) => {
                &&& tree.in_subtree(node as int, i as int)
                &&& tree.kind_of(i as int) == kind@
                &&& forall|j: int| node <= j < i ==> tree.kind_of(j) != kind@
            },
            None => forall|j: int| tree.in_subtree(node as int, j) ==> tree.kind_of(j) != kind@,
        },
        (forall|j: int| tree.in_subtree(node as int, j) ==> tree.kind_of(j) != kind@) ==> r is None,
{
    let wanted = kind.to_owned();
    let mut cursor = Cursor::new(tree, node);
    loop
        invariant
            cursor.valid(tree),
            cursor.root == node,
            wanted@ == kind@,
            forall|j: int| node <= j < cursor.current ==> tree.kind_of(j) != kind@,
        decreases tree.len() - cursor.current,
    {
        let c = cursor.current;
        if tree.nodes[c].kind == wanted {
            assert(tree.in_subtree(node as int, c as int) && tree.kind_of(c as int) == kind@);
            return Some(c);
        }
        if !cursor.goto_first_child(tree) {
            if !cursor.goto_next_subtree(tree) {
                return None;
            }
        }
    }
}

/// The source text `code[start..end]`, where the byte range is in bounds and
/// falls on character boundaries.
pub fn source_slice(code: &str, start: usize, end: usize) -> (r: Option<String>)
    ensures
        r is Some <==> slice_ok(code, start as int, end as int),
        r is Some ==> encode_utf8(r->0@) == code.spec_bytes().subrange(start as int, end as int),
{
    if start <= end && end <= code.as_bytes().len() && code.is_char_boundary(start) && code.is_char_boundary(
        end,
    ) {
        let (head, _) = code.split_at(end);
        proof {
            let b = code.spec_bytes();
            let h = head.spec_bytes();
            assert(h =~= b.subrange(0, end as int));
            vstd::utf8::valid_utf8_split(b, end as int);
            if start < end {
                assert(h[start as int] == b[start as int]);
                vstd::utf8::is_char_boundary_iff_not_is_continuation_byte(b, start as int);
                vstd::utf8::is_char_boundary_iff_not_is_continuation_byte(h, start as int);
            } else {
                vstd::utf8::is_char_boundary_start_end_of_seq(h);
            }
        }
        let (_, mid) = head.split_at(start);
        assert(mid.spec_bytes() =~= code.spec_bytes().subrange(start as int, end as int));
        Some(mid.to_owned())
    } else {
        None
    }
}

pub open spec fn slice_ok(code: &str, start: int, end: int) -> bool {
    &&& 0 <= start <= end <= code.spec_bytes().len()
    &&& is_char_boundary(code.spec_bytes(), start)
    &&& is_char_boundary(code.spec_bytes(), end)
}

/// The source text bound to field `name` among the direct children of `node`:
/// the slice of `code` that the leftmost such child spans, or the empty string
/// where no child carries that field (or its span does not fit `code`).
pub fn find_node_by_field_and_get_content(tree: &SyntaxTree, node: usize, name: &str, code: &str) -> (r: String)
    requires
        tree.wf(),
        node < tree.len(),
    ensures
        match tree.field_child(node as int, name@) {
            Some(c) => if slice_ok(
                code,
                tree.nodes@[c].start_byte as int,
                tree.nodes@[c].end_byte as int,
            ) {
                encode_utf8(r@) == code.spec_bytes().subrange(
                    tree.nodes@[c].start_byte as int,
                    tree.nodes@[c].end_byte as int,
                )
            } else {
                r@ == Seq::<char>::empty()
            },
            None => r@ == Seq::<char>::empty(),
        },
{
    let wanted = name.to_owned();
    let mut cur = tree.first_child(node);
    loop
        invariant
            tree.wf(),
            node < tree.len(),
            wanted@ == name@,
            match cur {
                Some(c) => {
                    &&& 0 < c < tree.len()
                    &&& tree.nodes@[c as int].parent == Some(node)
                    &&& forall|d: int| node < d < c ==> !#[trigger] tree.is_field_child(node as int, d, name@)
                },
                None => forall|d: int| !#[trigger] tree.is_field_child(node as int, d, name@),
            },
        decreases tree.len() - match cur { Some(c) => c as int, None => tree.len() },
    {
        match cur {
            None => {
                assert(!exists|c: int| tree.first_field_child_at(node as int, c, name@));
                return String::new();
            },
            Some(c) => {
                proof {
                    tree.lemma_child_subtree(node as int, c as int, name@);
                }
                let hit = match &tree.nodes[c].field {
                    Some(f) => *f == wanted,
                    None => false,
                };
                if hit {
                    proof {
                        assert(tree.first_field_child_at(node as int, c as int, name@));
                        let k = choose|k: int| tree.first_field_child_at(node as int, k, name@);
                        if k < c {
                        } else if k > c {
                            assert(!tree.is_field_child(node as int, c as int, name@));
                        }
                    }
                    let n = &tree.nodes[c];
                    return match source_slice(code, n.start_byte, n.end_byte) {
                        Some(s) => s,
                        None => String::new(),
                    };
                }
                let next = tree.next_sibling(c);
                proof {
                    if next is None {
                        assert(tree.end(c as int) == tree.end(node as int));
                        assert forall|d: int| !#[trigger] tree.is_field_child(node as int, d, name@) by {
                            if tree.is_field_child(node as int, d, name@) {
                                assert(tree.parent_ok(d, tree.nodes@[d].parent));
                            }
                        }
                    }
                }
                cur = next;
            },
        }
    }
}

} // verus!

verus! {

/// Where every node's range fits `code` (as it does for the text a tree was
/// parsed from), field extraction returns the verbatim text of the leftmost
/// child bound to the field, never the empty fallback.
pub proof fn lemma_field_text_verbatim(tree: &SyntaxTree, code: &str, node: int, name: Seq<char>)
    requires
        tree.wf(),
        forall|i: int|
            0 <= i < tree.nodes.len() ==> slice_ok(
                code,
                #[trigger] tree.nodes@[i].start_byte as int,
                tree.nodes@[i].end_byte as int,
            ),
    ensures
        tree.field_child(node, name) matches Some(c) ==> slice_ok(
            code,
            tree.nodes@[c].start_byte as int,
            tree.nodes@[c].end_byte as int,
        ),
{
    if let Some(c) = tree.field_child(node, name) {
        assert(tree.first_field_child_at(node, c, name));
        assert(slice_ok(code, tree.nodes@[c].start_byte as int, tree.nodes@[c].end_byte as int));
    }
}

} // verus!
