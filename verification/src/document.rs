//! Node order of an SVG frame: every arrow needs a marker definition, and SVG
//! requires definitions to precede the elements that reference them.
use vstd::prelude::*;

verus! {

/// The kind of a drawable primitive.
#[derive(Debug, Clone, Copy, PartialEq, Eq, Structural)]
pub enum PrimitiveKind {
    Circle,
    Rect,
    Line,
    Arrow,
    Text,
    Bezier,
}

/// One node of the document body, naming the primitive (by index) it comes from.
#[derive(Debug, Clone, Copy, PartialEq, Eq, Structural)]
pub enum DocNode {
    /// The marker definitions block of an arrow.
    ArrowDefs(usize),
    /// The drawn element of a primitive.
    Shape(usize),
}

/// `node` is the marker definitions block of one of the arrows in `kinds`.
pub open spec fn is_arrow_defs(kinds: Seq<PrimitiveKind>, node: DocNode) -> bool {
    match node {
        DocNode::ArrowDefs(i) => i < kinds.len() && kinds[i as int] == PrimitiveKind::Arrow,
        DocNode::Shape(_) => false,
    }
}

/// The marker definition nodes of the arrows among the first `n` primitives, in order.
pub open spec fn arrow_defs_upto(kinds: Seq<PrimitiveKind>, n: int) -> Seq<DocNode>
    decreases n,
{
    if n <= 0 {
        Seq::empty()
    } else if kinds[n - 1] == PrimitiveKind::Arrow {
        arrow_defs_upto(kinds, n - 1).push(DocNode::ArrowDefs((n - 1) as usize))
    } else {
        arrow_defs_upto(kinds, n - 1)
    }
}

/// The body of a frame: all arrow definitions first, then every primitive's element in
/// the order the primitives were added.
pub open spec fn document_nodes(kinds: Seq<PrimitiveKind>) -> Seq<DocNode> {
    arrow_defs_upto(kinds, kinds.len() as int) + Seq::new(
        kinds.len(),
        |i: int| DocNode::Shape(i as usize),
    )
}

/// The order in which the nodes of a frame are emitted for the given primitives.
pub fn document_order(kinds: &Vec<PrimitiveKind>) -> (nodes: Vec<DocNode>)
    ensures
        nodes@ == document_nodes(kinds@),
{
    let n = kinds.len();
    let mut nodes: Vec<DocNode> = Vec::new();
    let mut i: usize = 0;
    while i < n
        invariant
            n == kinds@.len(),
            i <= n,
            nodes@ == arrow_defs_upto(kinds@, i as int),
        decreases n - i,
    {
        if kinds[i] == PrimitiveKind::Arrow {
            nodes.push(DocNode::ArrowDefs(i));
        }
        i = i + 1;
    }
    let ghost defs = nodes@;
    let mut j: usize = 0;
    while j < n
        invariant
            n == kinds@.len(),
            j <= n,
            defs == arrow_defs_upto(kinds@, n as int),
            nodes@ == defs + Seq::new(j as nat, |k: int| DocNode::Shape(k as usize)),
        decreases n - j,
    {
        nodes.push(DocNode::Shape(j));
        j = j + 1;
        proof {
            assert(nodes@ =~= defs + Seq::new(j as nat, |k: int| DocNode::Shape(k as usize)));
        }
    }
    nodes
}

proof fn lemma_arrow_defs_upto(kinds: Seq<PrimitiveKind>, n: int)
    requires
        0 <= n <= kinds.len(),
        kinds.len() <= usize::MAX,
    ensures
        forall|p: int|
            0 <= p < arrow_defs_upto(kinds, n).len() ==> is_arrow_defs(
                kinds,
                #[trigger] arrow_defs_upto(kinds, n)[p],
            ),
        forall|i: int|
            0 <= i < n && kinds[i] == PrimitiveKind::Arrow ==> #[trigger] arrow_defs_upto(
                kinds,
                n,
            ).contains(DocNode::ArrowDefs(i as usize)),
    decreases n,
{
    if n > 0 {
        lemma_arrow_defs_upto(kinds, n - 1);
        let prev = arrow_defs_upto(kinds, n - 1);
        if kinds[n - 1] == PrimitiveKind::Arrow {
            let cur = prev.push(DocNode::ArrowDefs((n - 1) as usize));
            assert forall|i: int|
                0 <= i < n && kinds[i] == PrimitiveKind::Arrow implies #[trigger] cur.contains(
                DocNode::ArrowDefs(i as usize),
            ) by {
                if i < n - 1 {
                    assert(prev.contains(DocNode::ArrowDefs(i as usize)));
                    let p = choose|p: int|
                        0 <= p < prev.len() && prev[p] == DocNode::ArrowDefs(i as usize);
                    assert(cur[p] == prev[p]);
                } else {
                    assert(cur[cur.len() - 1] == DocNode::ArrowDefs(i as usize));
                }
            }
        }
    }
}

/// In a frame, each primitive's element appears exactly once, at its own position after
/// all definitions, and each arrow's marker definitions appear before every element, so
/// before the arrow's own line; definitions exist for arrows only.
pub proof fn lemma_defs_precede_shapes(kinds: Seq<PrimitiveKind>)
    requires
        kinds.len() <= usize::MAX,
    ensures
        ({
            let nodes = document_nodes(kinds);
            let d = arrow_defs_upto(kinds, kinds.len() as int).len();
            &&& nodes.len() == d + kinds.len()
            &&& forall|i: int|
                0 <= i < kinds.len() ==> #[trigger] nodes[d + i] == DocNode::Shape(i as usize)
            &&& forall|p: int|
                0 <= p < d ==> is_arrow_defs(kinds, #[trigger] nodes[p])
            &&& forall|i: int|
                0 <= i < kinds.len() && kinds[i] == PrimitiveKind::Arrow ==> exists|p: int|
                    0 <= p < d && #[trigger] nodes[p] == DocNode::ArrowDefs(i as usize)
        }),
{
    let n = kinds.len() as int;
    lemma_arrow_defs_upto(kinds, n);
    let defs = arrow_defs_upto(kinds, n);
    let nodes = document_nodes(kinds);
    let d = defs.len();
    assert forall|p: int| 0 <= p < d implies is_arrow_defs(kinds, #[trigger] nodes[p]) by {
        assert(nodes[p] == defs[p]);
    }
    assert forall|i: int| 0 <= i < n && kinds[i] == PrimitiveKind::Arrow implies exists|p: int|
        0 <= p < d && #[trigger] nodes[p] == DocNode::ArrowDefs(i as usize) by {
        assert(defs.contains(DocNode::ArrowDefs(i as usize)));
        let p = choose|p: int| 0 <= p < defs.len() && defs[p] == DocNode::ArrowDefs(i as usize);
        assert(nodes[p] == defs[p]);
    }
}

} // verus!
