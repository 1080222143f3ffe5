use vstd::prelude::*;
use tree_sitter::{Tree, TreeCursor};
use crate::grammar::{
    cursor_field_name, cursor_first_child, cursor_next_sibling, cursor_node, cursor_parent,
    node_end_byte, node_kind, node_start_byte, parse_has_error, tree_cursor,
};
use vstd::string::StringSliceAdditionalSpecFns;
use vstd::utf8::is_char_boundary;
use crate::search::slice_ok;
use crate::query::Origin;
use crate::tree::{Dialect, SyntaxNode, SyntaxTree};

verus! {

/// The end of the gap after the `k`-th open node: the next open node, or the
/// end of the arena.
pub open spec fn gap_end(open: Seq<usize>, k: int, n: int) -> int {
    if k + 1 < open.len() {
        open[k + 1] as int
    } else {
        n
    }
}

/// The state of a preorder build: `open` lists, root first, the nodes whose
/// subtree is still being read (their `subtree_end` is 0 meanwhile); every
/// other node is closed and satisfies the arena's laws.
pub open spec fn building(nodes: Seq<SyntaxNode>, open: Seq<usize>, source_len: usize) -> bool {
    let n = nodes.len() as int;
    let end = |i: int| nodes[i].subtree_end as int;
    &&& n > 0
    &&& open.len() > 0 ==> open[0] == 0
    &&& forall|k: int| 0 <= k < open.len() ==> #[trigger] open[k] < n
    &&& forall|k: int, l: int| 0 <= k < l < open.len() ==> open[k] < open[l]
    &&& forall|k: int| 0 <= k < open.len() ==> #[trigger] nodes[open[k] as int].subtree_end == 0
    &&& forall|k: int, i: int|
        #![trigger open[k], nodes[i]]
        0 <= k < open.len() && open[k] < i < gap_end(open, k, n) ==> nodes[i].subtree_end != 0
    &&& open.len() == 0 ==> nodes[0].subtree_end == n
    &&& nodes[0].parent is None
    &&& nodes[0].start_byte == 0
    &&& nodes[0].end_byte == source_len
    &&& forall|i: int|
        0 <= i < n ==> #[trigger] nodes[i].start_byte <= nodes[i].end_byte <= source_len
    &&& forall|i: int|
        0 <= i < n && #[trigger] nodes[i].subtree_end != 0 ==> i < end(i) <= n
    &&& forall|i: int, j: int|
        #![trigger nodes[i], nodes[j]]
        0 <= i < j < n && nodes[i].subtree_end != 0 && j < end(i) ==> nodes[j].subtree_end != 0
            && end(j) <= end(i)
    &&& forall|i: int| 0 < i < n ==> parent_built(nodes, i, #[trigger] nodes[i].parent)
    &&& forall|k: int|
        0 < k < open.len() ==> #[trigger] nodes[open[k] as int].parent == Some(open[k - 1])
    &&& forall|i: int, s: int|
        #![trigger nodes[i], nodes[s]]
        0 < i < s < n && s == nodes[i].subtree_end && nodes[s].parent == nodes[i].parent
            ==> nodes[i].end_byte <= nodes[s].start_byte
}

pub open spec fn parent_built(nodes: Seq<SyntaxNode>, i: int, parent: Option<usize>) -> bool {
    &&& parent is Some
    &&& parent->0 < i
    &&& nodes[parent->0 as int].subtree_end == 0 || i < nodes[parent->0 as int].subtree_end
    &&& forall|j: int|
        parent->0 < j < i ==> #[trigger] nodes[j].subtree_end != 0 && nodes[j].subtree_end <= i
    &&& nodes[parent->0 as int].start_byte <= nodes[i].start_byte
    &&& nodes[i].end_byte <= nodes[parent->0 as int].end_byte
}

/// Both ends of every node fall on character boundaries of `bytes`.
pub open spec fn on_boundaries(nodes: Seq<SyntaxNode>, bytes: Seq<u8>) -> bool {
    forall|i: int|
        0 <= i < nodes.len() ==> is_char_boundary(bytes, #[trigger] nodes[i].start_byte as int)
            && is_char_boundary(bytes, nodes[i].end_byte as int)
}

/// The last character boundary of `source` in `[lo, at]`.
fn boundary_at_or_before(source: &str, lo: usize, at: usize) -> (r: usize)
    requires
        lo <= at <= source.spec_bytes().len(),
        is_char_boundary(source.spec_bytes(), lo as int),
    ensures
        lo <= r <= at,
        is_char_boundary(source.spec_bytes(), r as int),
{
    let mut r = at;
    while r > lo && !source.is_char_boundary(r)
        invariant
            lo <= r <= at,
            is_char_boundary(source.spec_bytes(), lo as int),
        decreases r,
    {
        r = r - 1;
    }
    r
}

/// Reads the node under the cursor, with its byte range clamped to
/// `[lo, hi)` (after its previous sibling, and within its parent) and moved
/// back onto character boundaries of the source.
fn read_node(cursor: &TreeCursor, source: &str, lo: usize, hi: usize, parent: Option<usize>) -> (r: SyntaxNode)
    requires
        lo <= hi <= source.spec_bytes().len(),
        is_char_boundary(source.spec_bytes(), lo as int),
    ensures
        lo <= r.start_byte <= r.end_byte <= hi,
        is_char_boundary(source.spec_bytes(), r.start_byte as int),
        is_char_boundary(source.spec_bytes(), r.end_byte as int),
        r.parent == parent,
        r.subtree_end == 0,
{
    let node = cursor_node(cursor);
    let start = node_start_byte(&node);
    let end = node_end_byte(&node);
    let start = if start < lo { lo } else if start < hi { start } else { hi };
    let start = boundary_at_or_before(source, lo, start);
    let end = if end < start { start } else if end < hi { end } else { hi };
    let end = boundary_at_or_before(source, start, end);
    SyntaxNode {
        kind: node_kind(&node),
        field: cursor_field_name(cursor),
        start_byte: start,
        end_byte: end,
        parent,
        subtree_end: 0,
    }
}


/// Closing the innermost open node at the current end of the arena keeps the
/// build state.
proof fn lemma_close(nodes: Seq<SyntaxNode>, open: Seq<usize>, source_len: usize)
    requires
        building(nodes, open, source_len),
        open.len() > 0,
        nodes.len() <= usize::MAX,
    ensures
        ({
            let t = open.last() as int;
            let closed = SyntaxNode { subtree_end: nodes.len() as usize, ..nodes[t] };
            building(nodes.update(t, closed), open.drop_last(), source_len)
        }),
{
    let t = open.last() as int;
    let n = nodes.len() as int;
    let closed = SyntaxNode { subtree_end: n as usize, ..nodes[t] };
    let nodes2 = nodes.update(t, closed);
    let open2 = open.drop_last();
    let m = open.len() - 1;
    assert(open[m] == t);
    assert forall|k: int, i: int|
        #![trigger open2[k], nodes2[i]]
        0 <= k < open2.len() && open2[k] < i < gap_end(open2, k, n) implies nodes2[i].subtree_end
        != 0 by {
        assert(open2[k] == open[k]);
        if k + 1 < open2.len() {
            assert(open2[k + 1] == open[k + 1]);
            assert(open[k + 1] <= open[m]);
            assert(gap_end(open, k, n) == gap_end(open2, k, n));
            assert(open[k] < i < gap_end(open, k, n));
            assert(nodes[i].subtree_end != 0);
            assert(nodes2[i] == nodes[i]);
        } else if i < t {
            assert(k + 1 == m);
            assert(gap_end(open, k, n) == t);
            assert(open[k] < i < gap_end(open, k, n));
            assert(nodes[i].subtree_end != 0);
            assert(nodes2[i] == nodes[i]);
        } else if i > t {
            assert(gap_end(open, m, n) == n);
            assert(open[m] < i < gap_end(open, m, n));
            assert(nodes[i].subtree_end != 0);
            assert(nodes2[i] == nodes[i]);
        } else {
            assert(nodes2[t].subtree_end == n);
        }
    }
    assert forall|i: int, j: int|
        #![trigger nodes2[i], nodes2[j]]
        0 <= i < j < n && nodes2[i].subtree_end != 0 && j < nodes2[i].subtree_end implies
        nodes2[j].subtree_end != 0 && nodes2[j].subtree_end <= nodes2[i].subtree_end by {
        if i == t {
            assert(gap_end(open, m, n) == n);
            assert(open[m] < j < gap_end(open, m, n));
            assert(nodes[j].subtree_end != 0);
            assert(j < nodes[j].subtree_end <= n);
            assert(nodes2[j] == nodes[j]);
        } else {
            assert(nodes2[i] == nodes[i]);
            assert(nodes[i].subtree_end != 0);
            assert(nodes[j].subtree_end != 0 && nodes[j].subtree_end <= nodes[i].subtree_end);
            if j == t {
                assert(nodes[t].subtree_end == 0);
            }
            assert(nodes2[j] == nodes[j]);
        }
    }
    assert forall|i: int| 0 < i < n implies parent_built(nodes2, i, #[trigger] nodes2[i].parent) by {
        assert(parent_built(nodes, i, nodes[i].parent));
        let p = nodes[i].parent->0 as int;
        assert forall|j: int| p < j < i implies #[trigger] nodes2[j].subtree_end != 0
            && nodes2[j].subtree_end <= i by {
            assert(nodes[j].subtree_end != 0);
        }
    }
    assert forall|i: int|
        0 <= i < n && #[trigger] nodes2[i].subtree_end != 0 implies i < nodes2[i].subtree_end <= n by {
        if i != t {
        }
    }
    assert forall|k: int| 0 <= k < open2.len() implies #[trigger] nodes2[open2[k] as int].subtree_end == 0 by {
        assert(open[k] < open[m]);
    }
}

/// Appending a node as a child of the innermost open node, and opening it,
/// keeps the build state.
proof fn lemma_open(nodes: Seq<SyntaxNode>, open: Seq<usize>, source_len: usize, node: SyntaxNode)
    requires
        building(nodes, open, source_len),
        open.len() > 0,
        nodes.len() < usize::MAX,
        node.parent == Some(open.last()),
        node.subtree_end == 0,
        node.start_byte <= node.end_byte <= source_len,
        nodes[open.last() as int].start_byte <= node.start_byte,
        node.end_byte <= nodes[open.last() as int].end_byte,
        forall|i: int|
            0 < i < nodes.len() && #[trigger] nodes[i].subtree_end == nodes.len() && nodes[i].parent
                == Some(open.last()) ==> nodes[i].end_byte <= node.start_byte,
    ensures
        building(nodes.push(node), open.push(nodes.len() as usize), source_len),
{
    let n = nodes.len() as int;
    let nodes2 = nodes.push(node);
    let open2 = open.push(n as usize);
    let m = open.len() - 1;
    assert(nodes2[n] == node);
    assert forall|k: int, i: int|
        #![trigger open2[k], nodes2[i]]
        0 <= k < open2.len() && open2[k] < i < gap_end(open2, k, n + 1) implies nodes2[i].subtree_end
        != 0 by {
        if k < m {
            assert(open2[k] == open[k]);
            assert(gap_end(open, k, n) == gap_end(open2, k, n + 1));
        } else if k == m {
            assert(open2[k] == open[k]);
            assert(gap_end(open, k, n) == n);
        }
    }
    assert forall|i: int, j: int|
        #![trigger nodes2[i], nodes2[j]]
        0 <= i < j < n + 1 && nodes2[i].subtree_end != 0 && j < nodes2[i].subtree_end implies
        nodes2[j].subtree_end != 0 && nodes2[j].subtree_end <= nodes2[i].subtree_end by {
        if j < n {
        } else {
            assert(i < nodes[i].subtree_end <= n);
        }
    }
    assert forall|i: int| 0 < i < n + 1 implies parent_built(nodes2, i, #[trigger] nodes2[i].parent) by {
        if i < n {
            assert(parent_built(nodes, i, nodes[i].parent));
        } else {
            let t = open[m] as int;
            assert forall|j: int| t < j < n implies #[trigger] nodes2[j].subtree_end != 0
                && nodes2[j].subtree_end <= n by {
                assert(gap_end(open, m, n) == n);
                assert(j < nodes[j].subtree_end <= n);
            }
            assert(nodes[t].subtree_end == 0);
        }
    }
    assert forall|k: int| 0 <= k < open2.len() implies #[trigger] nodes2[open2[k] as int].subtree_end == 0 by {
        if k < open.len() {
            assert(open2[k] == open[k]);
            assert(nodes[open[k] as int].subtree_end == 0);
        }
    }
    assert forall|k: int, l: int| 0 <= k < l < open2.len() implies open2[k] < open2[l] by {
        if l < open.len() {
            assert(open[k] < open[l]);
        } else {
            assert(open[k] < n);
        }
    }
    assert forall|k: int| 0 <= k < open2.len() implies #[trigger] open2[k] < n + 1 by {
        if k < open.len() {
            assert(open[k] < n);
        }
    }
}


/// A finished build is a well-formed tree.
proof fn lemma_built(t: &SyntaxTree)
    requires
        building(t.nodes@, Seq::empty(), t.source_len),
    ensures
        t.wf(),
{
    let nodes = t.nodes@;
    let n = nodes.len() as int;
    assert forall|i: int| 0 < i < n implies #[trigger] nodes[i].subtree_end != 0 by {
    }
    assert forall|i: int| 0 <= i < n implies i < #[trigger] t.end(i) <= t.len() by {
        assert(nodes[i].subtree_end != 0);
    }
    assert forall|i: int, j: int|
        #![trigger t.end(i), t.end(j)]
        0 <= i < t.len() && i < j < t.end(i) implies t.end(j) <= t.end(i) by {
        assert(nodes[i].subtree_end != 0);
    }
    assert forall|i: int| 0 < i < t.len() implies t.parent_ok(i, #[trigger] t.nodes@[i].parent) by {
        assert(parent_built(nodes, i, nodes[i].parent));
        let p = nodes[i].parent->0 as int;
        if p > 0 {
            assert(nodes[p].subtree_end != 0);
        }
    }
}

/// Reads the whole tree under the cursor, which stands at the root, into an
/// arena in preorder. The root is given the byte range `[0, source_len)`.
#[verifier::rlimit(100)]
#[verifier::spinoff_prover]
fn build_arena(cursor: &mut TreeCursor, source: &str, source_len: usize) -> (r: Vec<SyntaxNode>)
    requires
        source_len == source.spec_bytes().len(),
    ensures
        building(r@, Seq::empty(), source_len),
        on_boundaries(r@, source.spec_bytes()),
{
    proof {
        vstd::utf8::encode_utf8_valid_utf8(source@);
        vstd::utf8::is_char_boundary_start_end_of_seq(source.spec_bytes());
    }
    let first = read_node(cursor, source, 0, source_len, None);
    let root = SyntaxNode {
        kind: first.kind,
        field: first.field,
        start_byte: 0,
        end_byte: source_len,
        parent: None,
        subtree_end: 0,
    };
    let mut nodes: Vec<SyntaxNode> = Vec::new();
    nodes.push(root);
    let mut open: Vec<usize> = Vec::new();
    open.push(0);
    let mut fresh = true;
    // Where the next child of the innermost open node may start: that node's
    // start, or the end of its last closed child `prev`.
    let mut floor: usize = 0;
    let ghost mut prev: Option<usize> = None;
    loop
        invariant
            building(nodes@, open@, source_len),
            source_len == source.spec_bytes().len(),
            on_boundaries(nodes@, source.spec_bytes()),
            open.len() > 0,
            fresh ==> prev is None,
            match prev {
                None => {
                    &&& open@.last() == nodes.len() - 1
                    &&& floor == nodes@[open@.last() as int].start_byte
                },
                Some(c) => {
                    &&& 0 < c < nodes.len()
                    &&& nodes@[c as int].subtree_end == nodes.len()
                    &&& nodes@[c as int].parent == Some(open@.last())
                    &&& floor == nodes@[c as int].end_byte
                },
            },
        decreases usize::MAX - nodes.len(), open.len(),
    {
        let top = open[open.len() - 1];
        if fresh && nodes.len() < usize::MAX && cursor_first_child(cursor) {
            let child = read_node(cursor, source, floor, nodes[top].end_byte, Some(top));
            proof {
                assert forall|i: int|
                    0 < i < nodes.len() && #[trigger] nodes@[i].subtree_end == nodes.len()
                        && nodes@[i].parent == Some(top) implies nodes@[i].end_byte
                    <= child.start_byte by {
                    assert(parent_built(nodes@, i, nodes@[i].parent));
                }
                lemma_open(nodes@, open@, source_len, child);
            }
            floor = child.start_byte;
            open.push(nodes.len());
            nodes.push(child);
        } else {
            proof {
                lemma_close(nodes@, open@, source_len);
            }
            let n = nodes.len();
            nodes[top].subtree_end = n;
            open.pop();
            if open.len() == 0 {
                return nodes;
            }
            let parent = open[open.len() - 1];
            proof {
                assert(nodes@[top as int].parent == Some(parent));
                assert(parent_built(nodes@, top as int, nodes@[top as int].parent));
                prev = Some(top);
            }
            floor = nodes[top].end_byte;
            if nodes.len() < usize::MAX && cursor_next_sibling(cursor) {
                let sibling = read_node(cursor, source, floor, nodes[parent].end_byte, Some(parent));
                proof {
                    assert forall|i: int|
                        0 < i < nodes.len() && #[trigger] nodes@[i].subtree_end == nodes.len()
                            && nodes@[i].parent == Some(parent) implies nodes@[i].end_byte
                        <= sibling.start_byte by {
                        assert(parent_built(nodes@, i, nodes@[i].parent));
                        if i < top {
                            assert(nodes@[i].subtree_end <= top);
                        } else if i > top {
                            assert(nodes@[top as int].subtree_end <= i);
                        }
                    }
                    lemma_open(nodes@, open@, source_len, sibling);
                    prev = None;
                }
                floor = sibling.start_byte;
                open.push(nodes.len());
                nodes.push(sibling);
                fresh = true;
            } else {
                cursor_parent(cursor);
                fresh = false;
            }
        }
    }
}



/// The arena of `tree`.
fn read_tree(tree: &Tree, source: &str, source_len: usize) -> (r: Vec<SyntaxNode>)
    requires
        source_len == source.spec_bytes().len(),
    ensures
        building(r@, Seq::empty(), source_len),
        on_boundaries(r@, source.spec_bytes()),
{
    let mut cursor = tree_cursor(tree);
    build_arena(&mut cursor, source, source_len)
}

/// Parses `source` with the extended grammar where `cpp` holds, else with the
/// baseline grammar. Parsing never fails: malformed input shows up as nodes of
/// the error kind inside the tree, and the root always spans the whole source.
pub fn parse(source: &str, cpp: bool) -> (r: SyntaxTree)
    ensures
        r.wf(),
        r.spec_dialect() == Dialect::spec_from_flag(cpp),
        r.spec_source() == source@,
        r.has_error == parse_has_error(source@, cpp),
        r.source_len == source.spec_bytes().len(),
        r.nodes@[0].start_byte == 0,
        r.nodes@[0].end_byte == source.spec_bytes().len(),
        forall|i: int|
            0 <= i < r.nodes.len() ==> slice_ok(
                source,
                #[trigger] r.nodes@[i].start_byte as int,
                r.nodes@[i].end_byte as int,
            ),
{
    let dialect = Dialect::from_flag(cpp);
    let source_len = source.as_bytes().len();
    let (origin, has_error) = Origin::parse(source, dialect);
    let nodes = read_tree(origin.tree(), source, source_len);
    let r = SyntaxTree { nodes, source_len, has_error, origin };
    proof {
        lemma_built(&r);
    }
    r
}

} // verus!
