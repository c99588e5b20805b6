//! The syntax tree that the rules read: an arena of nodes in document order,
//! addressed by index, with links to parent, first child and next sibling.

use vstd::prelude::*;
use vstd::string::StringSliceAdditionalSpecFns;
use crate::analyzer::text::bytes_eq;

verus! {

/// A position in a text, in rows and columns, both counted from zero.
#[derive(Clone, Copy, Debug, PartialEq, Eq, Structural)]
pub struct Position {
    pub row: usize,
    pub column: usize,
}

/// The stretch of text between two positions.
#[derive(Clone, Copy, Debug, PartialEq, Eq, Structural)]
pub struct Span {
    pub start: Position,
    pub end: Position,
}

/// One node of a syntax tree.
#[derive(Clone, Copy, Debug)]
pub struct SyntaxNode {
    /// The node's kind tag.
    pub kind: &'static str,
    /// Whether the node stands for a named rule of the grammar.
    pub named: bool,
    /// The name of the field of its parent that the node fills, if any.
    pub field: Option<&'static str>,
    pub start_byte: usize,
    pub end_byte: usize,
    pub start: Position,
    pub end: Position,
    pub parent: Option<usize>,
    pub first_child: Option<usize>,
    pub next_sibling: Option<usize>,
    /// The index just behind the node's last descendant.
    pub subtree_end: usize,
}

/// Whether node `i` of `nodes` is linked soundly: every link stays inside the
/// arena and points forward, except the parent link, which points back.
pub open spec fn node_ok(nodes: Seq<SyntaxNode>, i: int) -> bool {
    let n = nodes[i];
    &&& i < n.subtree_end <= nodes.len()
    &&& n.start_byte <= n.end_byte
    &&& match n.parent {
        Some(p) => p < i,
        None => i == 0,
    }
    &&& match n.first_child {
        Some(c) => i < c < nodes.len() && nodes[c as int].parent == Some(i as usize),
        None => true,
    }
    &&& match n.next_sibling {
        Some(s) => i < s < nodes.len() && nodes[s as int].parent == n.parent,
        None => true,
    }
}

/// A syntax tree. Node 0 is the root; the nodes stand in document order, so
/// the descendants of node `i` are the nodes from `i + 1` up to its
/// `subtree_end`.
#[derive(Debug)]
pub struct SyntaxTree {
    pub nodes: Vec<SyntaxNode>,
}

impl SyntaxTree {
    /// Whether the tree is well formed.
    pub open spec fn wf(&self) -> bool {
        &&& self.nodes.len() > 0
        &&& forall|i: int| 0 <= i < self.nodes.len() ==> node_ok(self.nodes@, i)
    }

    /// The kind tag of node `i`, as bytes.
    pub open spec fn kind_of(&self, i: int) -> Seq<u8> {
        self.nodes[i].kind.spec_bytes()
    }

    /// The number of nodes.
    pub fn len(&self) -> (n: usize)
        ensures
            n == self.nodes.len(),
    {
        self.nodes.len()
    }

    /// Whether node `i` has the kind `kind`.
    pub fn is_kind(&self, i: usize, kind: &str) -> (r: bool)
        requires
            i < self.nodes.len(),
        ensures
            r == (self.kind_of(i as int) == kind.spec_bytes()),
    {
        bytes_eq(self.nodes[i].kind.as_bytes(), kind.as_bytes())
    }

    /// The nodes reached from `from` by following sibling links.
    pub open spec fn chain(&self, from: Option<usize>) -> Seq<usize>
        decreases
            (match from {
                Some(c) => if c < self.nodes.len() {
                    self.nodes.len() - c
                } else {
                    0
                },
                None => 0,
            }),
    {
        match from {
            Some(c) => if c < self.nodes.len() {
                match self.nodes[c as int].next_sibling {
                    Some(s) => if s > c {
                        seq![c] + self.chain(Some(s))
                    } else {
                        seq![c]
                    },
                    None => seq![c],
                }
            } else {
                Seq::empty()
            },
            None => Seq::empty(),
        }
    }

    /// The children of node `i`, in document order.
    pub open spec fn children(&self, i: int) -> Seq<usize> {
        self.chain(self.nodes[i].first_child)
    }

    /// The named children of node `i`, in document order.
    pub open spec fn named_children(&self, i: int) -> Seq<usize> {
        self.children(i).filter(|c: usize| self.nodes[c as int].named)
    }

    /// The first of `list` that has the kind `kind`.
    pub open spec fn first_of_kind(&self, list: Seq<usize>, kind: Seq<u8>) -> Option<usize>
        decreases list.len(),
    {
        if list.len() == 0 {
            None
        } else if self.kind_of(list[0] as int) == kind {
            Some(list[0])
        } else {
            self.first_of_kind(list.drop_first(), kind)
        }
    }

    /// The first of `list` that fills the field `field` of its parent.
    pub open spec fn first_in_field(&self, list: Seq<usize>, field: Seq<u8>) -> Option<usize>
        decreases list.len(),
    {
        if list.len() == 0 {
            None
        } else if self.field_is(list[0] as int, field) {
            Some(list[0])
        } else {
            self.first_in_field(list.drop_first(), field)
        }
    }

    /// Whether node `i` fills the field `field` of its parent.
    pub open spec fn field_is(&self, i: int, field: Seq<u8>) -> bool {
        match self.nodes[i].field {
            Some(f) => f.spec_bytes() == field,
            None => false,
        }
    }

    /// Whether node `j` is node `root` or one of its descendants.
    pub open spec fn in_subtree(&self, root: int, j: int) -> bool {
        root <= j < self.nodes[root].subtree_end
    }

    /// Whether a node strictly between `node` and `boundary`, going up, is a
    /// branching construct: an `if`, `elseif` or `else`, a `match` or a
    /// `switch`.
    pub open spec fn conditional_above(&self, node: int, boundary: int) -> bool
        decreases node,
    {
        if node < 0 || node >= self.nodes.len() {
            false
        } else {
            match self.nodes[node].parent {
                Some(p) => if p >= node || p == boundary {
                    false
                } else if is_branching(self.kind_of(p as int)) {
                    true
                } else {
                    self.conditional_above(p as int, boundary)
                },
                None => false,
            }
        }
    }

    /// The parent of node `i`.
    pub fn parent(&self, i: usize) -> (r: Option<usize>)
        requires
            self.wf(),
            i < self.nodes.len(),
        ensures
            r == self.nodes[i as int].parent,
            r.is_some() ==> r.unwrap() < i,
    {
        assert(node_ok(self.nodes@, i as int));
        self.nodes[i].parent
    }

    /// The index just behind the last descendant of node `i`.
    pub fn subtree_end(&self, i: usize) -> (r: usize)
        requires
            self.wf(),
            i < self.nodes.len(),
        ensures
            r == self.nodes[i as int].subtree_end,
            i < r <= self.nodes.len(),
    {
        assert(node_ok(self.nodes@, i as int));
        self.nodes[i].subtree_end
    }

    /// The children of node `i`, in document order.
    pub fn children_of(&self, i: usize) -> (r: Vec<usize>)
        requires
            self.wf(),
            i < self.nodes.len(),
        ensures
            r@ == self.children(i as int),
            forall|k: int| 0 <= k < r@.len() ==> i < #[trigger] r@[k] < self.nodes.len(),
    {
        let mut out: Vec<usize> = Vec::new();
        assert(node_ok(self.nodes@, i as int));
        let mut next = self.nodes[i].first_child;
        proof {
            assert(out@ + self.chain(next) =~= self.children(i as int));
        }
        loop
            invariant
                self.wf(),
                i < self.nodes.len(),
                self.children(i as int) == out@ + self.chain(next),
                forall|k: int| 0 <= k < out@.len() ==> i < #[trigger] out@[k] < self.nodes.len(),
                match next {
                    Some(c) => i < c < self.nodes.len(),
                    None => true,
                },
            decreases
                (match next {
                    Some(c) => self.nodes.len() - c + 1,
                    None => 0,
                }),
        {
            match next {
                Some(c) => {
                    assert(node_ok(self.nodes@, c as int));
                    let ghost before = out@;
                    out.push(c);
                    next = self.nodes[c].next_sibling;
                    proof {
                        assert(out@ + self.chain(next) =~= before + self.chain(Some(c)));
                    }
                },
                None => {
                    assert(out@ + self.chain(next) =~= out@);
                    return out;
                },
            }
        }
    }

    /// The named children of node `i`, in document order.
    pub fn named_children_of(&self, i: usize) -> (r: Vec<usize>)
        requires
            self.wf(),
            i < self.nodes.len(),
        ensures
            r@ == self.named_children(i as int),
            forall|k: int| 0 <= k < r@.len() ==> i < #[trigger] r@[k] < self.nodes.len(),
    {
        let all = self.children_of(i);
        let mut out: Vec<usize> = Vec::new();
        let ghost keep = |c: usize| self.nodes[c as int].named;
        let mut k: usize = 0;
        proof {
            lemma_filter_ends(all@, keep);
        }
        while k < all.len()
            invariant
                k <= all.len(),
                keep == (|c: usize| self.nodes[c as int].named),
                out@ == all@.subrange(0, k as int).filter(keep),
                forall|j: int| 0 <= j < all@.len() ==> i < #[trigger] all@[j] < self.nodes.len(),
                forall|j: int| 0 <= j < out@.len() ==> i < #[trigger] out@[j] < self.nodes.len(),
            decreases all.len() - k,
        {
            let c = all[k];
            proof {
                lemma_filter_step(all@, keep, k as int);
            }
            if self.nodes[c].named {
                out.push(c);
            }
            k += 1;
        }
        proof {
            lemma_filter_ends(all@, keep);
        }
        out
    }

    /// The named children of node `i` that have the kind `kind`.
    pub open spec fn named_children_of_kind(&self, i: int, kind: Seq<u8>) -> Seq<usize> {
        self.named_children(i).filter(|c: usize| self.kind_of(c as int) == kind)
    }

    /// The named children of node `i` that have the kind `kind`.
    pub fn children_by_kind(&self, i: usize, kind: &str) -> (r: Vec<usize>)
        requires
            self.wf(),
            i < self.nodes.len(),
        ensures
            r@ == self.named_children_of_kind(i as int, kind.spec_bytes()),
            forall|k: int| 0 <= k < r@.len() ==> i < #[trigger] r@[k] < self.nodes.len(),
    {
        let all = self.named_children_of(i);
        let mut out: Vec<usize> = Vec::new();
        let ghost keep = |c: usize| self.kind_of(c as int) == kind.spec_bytes();
        let mut k: usize = 0;
        proof {
            lemma_filter_ends(all@, keep);
        }
        while k < all.len()
            invariant
                k <= all.len(),
                keep == (|c: usize| self.kind_of(c as int) == kind.spec_bytes()),
                out@ == all@.subrange(0, k as int).filter(keep),
                forall|j: int| 0 <= j < all@.len() ==> i < #[trigger] all@[j] < self.nodes.len(),
                forall|j: int| 0 <= j < out@.len() ==> i < #[trigger] out@[j] < self.nodes.len(),
            decreases all.len() - k,
        {
            let c = all[k];
            proof {
                lemma_filter_step(all@, keep, k as int);
            }
            if self.is_kind(c, kind) {
                out.push(c);
            }
            k += 1;
        }
        proof {
            lemma_filter_ends(all@, keep);
        }
        out
    }

    /// The first named child of node `i` that has the kind `kind`.
    pub fn child_by_kind(&self, i: usize, kind: &str) -> (r: Option<usize>)
        requires
            self.wf(),
            i < self.nodes.len(),
        ensures
            r == self.first_of_kind(self.named_children(i as int), kind.spec_bytes()),
            r.is_some() ==> i < r.unwrap() < self.nodes.len(),
    {
        let kids = self.named_children_of(i);
        self.first_with_kind(&kids, kind)
    }

    /// The first of `list` that has the kind `kind`.
    pub fn first_with_kind(&self, list: &Vec<usize>, kind: &str) -> (r: Option<usize>)
        requires
            forall|k: int| 0 <= k < list@.len() ==> #[trigger] list@[k] < self.nodes.len(),
        ensures
            r == self.first_of_kind(list@, kind.spec_bytes()),
            r.is_some() ==> list@.contains(r.unwrap()),
    {
        let mut k: usize = 0;
        proof {
            assert(list@.subrange(0, list@.len() as int) =~= list@);
        }
        while k < list.len()
            invariant
                k <= list.len(),
                forall|j: int| 0 <= j < list@.len() ==> #[trigger] list@[j] < self.nodes.len(),
                self.first_of_kind(list@, kind.spec_bytes()) == self.first_of_kind(
                    list@.subrange(k as int, list@.len() as int),
                    kind.spec_bytes(),
                ),
            decreases list.len() - k,
        {
            let c = list[k];
            proof {
                let rest = list@.subrange(k as int, list@.len() as int);
                assert(rest[0] == c);
                assert(rest.drop_first() =~= list@.subrange(k + 1, list@.len() as int));
            }
            if self.is_kind(c, kind) {
                return Some(c);
            }
            k += 1;
        }
        None
    }

    /// The first child of node `i` that fills the field `field`.
    pub fn child_by_field(&self, i: usize, field: &str) -> (r: Option<usize>)
        requires
            self.wf(),
            i < self.nodes.len(),
        ensures
            r == self.first_in_field(self.children(i as int), field.spec_bytes()),
            r.is_some() ==> i < r.unwrap() < self.nodes.len(),
    {
        let list = self.children_of(i);
        let mut k: usize = 0;
        proof {
            assert(list@.subrange(0, list@.len() as int) =~= list@);
        }
        while k < list.len()
            invariant
                k <= list.len(),
                list@ == self.children(i as int),
                forall|j: int| 0 <= j < list@.len() ==> i < #[trigger] list@[j] < self.nodes.len(),
                self.first_in_field(list@, field.spec_bytes()) == self.first_in_field(
                    list@.subrange(k as int, list@.len() as int),
                    field.spec_bytes(),
                ),
            decreases list.len() - k,
        {
            let c = list[k];
            proof {
                let rest = list@.subrange(k as int, list@.len() as int);
                assert(rest[0] == c);
                assert(rest.drop_first() =~= list@.subrange(k + 1, list@.len() as int));
            }
            let hit = match self.nodes[c].field {
                Some(f) => bytes_eq(f.as_bytes(), field.as_bytes()),
                None => false,
            };
            if hit {
                return Some(c);
            }
            k += 1;
        }
        None
    }

    /// Whether a branching construct stands strictly between `node` and
    /// `boundary`, going up from `node`.
    pub fn has_conditional_ancestor(&self, node: usize, boundary: usize) -> (r: bool)
        requires
            self.wf(),
            node < self.nodes.len(),
        ensures
            r == self.conditional_above(node as int, boundary as int),
    {
        let mut current = node;
        loop
            invariant
                self.wf(),
                current < self.nodes.len(),
                self.conditional_above(node as int, boundary as int) == self.conditional_above(
                    current as int,
                    boundary as int,
                ),
            decreases current,
        {
            assert(node_ok(self.nodes@, current as int));
            match self.nodes[current].parent {
                Some(p) => {
                    if p == boundary {
                        return false;
                    }
                    if is_branching_kind(self.nodes[p].kind) {
                        return true;
                    }
                    current = p;
                },
                None => {
                    return false;
                },
            }
        }
    }
}

/// The kinds of the branching constructs.
pub open spec fn is_branching(kind: Seq<u8>) -> bool {
    ||| kind == "if_statement".spec_bytes()
    ||| kind == "else_if_clause".spec_bytes()
    ||| kind == "else_clause".spec_bytes()
    ||| kind == "match_expression".spec_bytes()
    ||| kind == "switch_statement".spec_bytes()
}

/// Whether `kind` names a branching construct.
pub fn is_branching_kind(kind: &str) -> (r: bool)
    ensures
        r == is_branching(kind.spec_bytes()),
{
    let k = kind.as_bytes();
    bytes_eq(k, "if_statement".as_bytes()) || bytes_eq(k, "else_if_clause".as_bytes()) || bytes_eq(
        k,
        "else_clause".as_bytes(),
    ) || bytes_eq(k, "match_expression".as_bytes()) || bytes_eq(k, "switch_statement".as_bytes())
}

/// Filtering one element more keeps what was kept, and the element if it
/// passes.
pub proof fn lemma_filter_step<A>(s: Seq<A>, keep: spec_fn(A) -> bool, k: int)
    requires
        0 <= k < s.len(),
    ensures
        s.subrange(0, k + 1).filter(keep) == (if keep(s[k]) {
            s.subrange(0, k).filter(keep).push(s[k])
        } else {
            s.subrange(0, k).filter(keep)
        }),
{
    reveal(Seq::filter);
    let upto = s.subrange(0, k + 1);
    assert(upto.drop_last() =~= s.subrange(0, k));
    assert(upto.last() == s[k]);
}

/// Filtering nothing keeps nothing, and filtering everything is filtering
/// the whole.
pub proof fn lemma_filter_ends<A>(s: Seq<A>, keep: spec_fn(A) -> bool)
    ensures
        s.subrange(0, 0).filter(keep) == Seq::<A>::empty(),
        s.subrange(0, s.len() as int).filter(keep) == s.filter(keep),
{
    reveal(Seq::filter);
    assert(s.subrange(0, 0) =~= Seq::empty());
    assert(s.subrange(0, s.len() as int) =~= s);
}

/// What `f` yields for the indices from `from` up to `to`, one after the
/// other.
pub open spec fn gather<T>(f: spec_fn(int) -> Seq<T>, from: int, to: int) -> Seq<T>
    decreases to - from,
{
    if from >= to {
        Seq::empty()
    } else {
        f(from) + gather(f, from + 1, to)
    }
}

/// The first thing that `f` yields for an index from `from` up to `to`.
pub open spec fn first_some<T>(f: spec_fn(int) -> Option<T>, from: int, to: int) -> Option<T>
    decreases to - from,
{
    if from >= to {
        None
    } else {
        match f(from) {
            Some(x) => Some(x),
            None => first_some(f, from + 1, to),
        }
    }
}

/// What was gathered so far, and what the current index yields, leave the
/// rest to gather.
pub proof fn lemma_gather_step<T>(f: spec_fn(int) -> Seq<T>, acc: Seq<T>, from: int, to: int)
    requires
        from < to,
    ensures
        acc + gather(f, from, to) == (acc + f(from)) + gather(f, from + 1, to),
{
    assert(acc + (f(from) + gather(f, from + 1, to)) =~= (acc + f(from)) + gather(f, from + 1, to));
}

} // verus!
