use vstd::prelude::*;

verus! {

/// A child of a frame: something that can be exported.
#[derive(Clone, Debug, PartialEq, Eq)]
pub struct Node {
    pub name: String,
    pub id: String,
}

/// A named container on a canvas. `children` is absent where the document
/// gives none.
#[derive(Clone, Debug, PartialEq, Eq)]
pub struct Frame {
    pub name: String,
    pub id: String,
    pub children: Option<Vec<Node>>,
}

/// A page of the document, with its frames in document order.
#[derive(Clone, Debug, PartialEq, Eq)]
pub struct Canvas {
    pub name: String,
    pub frames: Vec<Frame>,
}

/// The document as it was fetched: its canvases in document order.
#[derive(Clone, Debug, PartialEq, Eq)]
pub struct Document {
    pub canvases: Vec<Canvas>,
}

/// Whether a canvas is searched: every canvas is where no page is asked
/// for, else only those that bear exactly the page's name.
pub open spec fn in_scope(canvas: Canvas, page: Option<Seq<char>>) -> bool {
    match page {
        Some(name) => canvas.name@ == name,
        None => true,
    }
}

/// The frames of the canvases that are searched, in document order.
pub open spec fn scoped_frames(canvases: Seq<Canvas>, page: Option<Seq<char>>) -> Seq<Frame>
    decreases canvases.len(),
{
    if canvases.len() == 0 {
        Seq::empty()
    } else if in_scope(canvases.last(), page) {
        scoped_frames(canvases.drop_last(), page) + canvases.last().frames@
    } else {
        scoped_frames(canvases.drop_last(), page)
    }
}

/// `i` is the place of the first frame that bears `name`.
pub open spec fn is_first_named(frames: Seq<Frame>, name: Seq<char>, i: int) -> bool {
    &&& 0 <= i < frames.len()
    &&& frames[i].name@ == name
    &&& forall|j: int| 0 <= j < i ==> (#[trigger] frames[j]).name@ != name
}

/// No frame bears `name`.
pub open spec fn none_named(frames: Seq<Frame>, name: Seq<char>) -> bool {
    forall|j: int| 0 <= j < frames.len() ==> (#[trigger] frames[j]).name@ != name
}

/// The immediate children of a frame, in document order.
pub open spec fn children_of(frame: Frame) -> Seq<Node> {
    match frame.children {
        Some(nodes) => nodes@,
        None => Seq::empty(),
    }
}

/// The identifier that `name` leads to among `nodes`: that of the last node
/// so named.
pub open spec fn lookup(nodes: Seq<Node>, name: Seq<char>) -> Option<Seq<char>>
    decreases nodes.len(),
{
    if nodes.len() == 0 {
        None
    } else if nodes.last().name@ == name {
        Some(nodes.last().id@)
    } else {
        lookup(nodes.drop_last(), name)
    }
}

/// The mapping from name to identifier that `nodes` give: where a name
/// occurs more than once, the last occurrence decides.
pub open spec fn child_index(nodes: Seq<Node>) -> Map<Seq<char>, Seq<char>> {
    Map::new(
        |name: Seq<char>| lookup(nodes, name) is Some,
        |name: Seq<char>| lookup(nodes, name).unwrap(),
    )
}

/// The names of `nodes`, each once, in the order of their first occurrence.
pub open spec fn distinct_names(nodes: Seq<Node>) -> Seq<Seq<char>>
    decreases nodes.len(),
{
    if nodes.len() == 0 {
        Seq::empty()
    } else if lookup(nodes.drop_last(), nodes.last().name@) is Some {
        distinct_names(nodes.drop_last())
    } else {
        distinct_names(nodes.drop_last()).push(nodes.last().name@)
    }
}

/// A name leads somewhere exactly when some node bears it, and then to the
/// identifier of the last such node.
pub proof fn lemma_lookup(nodes: Seq<Node>, name: Seq<char>)
    ensures
        lookup(nodes, name) is Some <==> exists|i: int|
            0 <= i < nodes.len() && (#[trigger] nodes[i]).name@ == name,
        forall|i: int|
            0 <= i < nodes.len() && (#[trigger] nodes[i]).name@ == name && (forall|j: int|
                i < j < nodes.len() ==> (#[trigger] nodes[j]).name@ != name) ==> lookup(nodes, name)
                == Some(nodes[i].id@),
    decreases nodes.len(),
{
    if nodes.len() > 0 {
        let front = nodes.drop_last();
        lemma_lookup(front, name);
        if nodes.last().name@ == name {
            assert(nodes[nodes.len() - 1].name@ == name);
        } else {
            if lookup(front, name) is Some {
                let i = choose|i: int| 0 <= i < front.len() && (#[trigger] front[i]).name@ == name;
                assert(nodes[i].name@ == name);
            }
            if exists|i: int| 0 <= i < nodes.len() && (#[trigger] nodes[i]).name@ == name {
                let i = choose|i: int| 0 <= i < nodes.len() && (#[trigger] nodes[i]).name@ == name;
                assert(front[i].name@ == name);
            }
            assert forall|i: int|
                0 <= i < nodes.len() && (#[trigger] nodes[i]).name@ == name && (forall|j: int|
                    i < j < nodes.len() ==> (#[trigger] nodes[j]).name@ != name) implies lookup(
                nodes,
                name,
            ) == Some(nodes[i].id@) by {
                assert(front[i].name@ == name);
                assert forall|j: int| i < j < front.len() implies (#[trigger] front[j]).name@
                    != name by {
                    assert(nodes[j].name@ != name);
                }
            }
        }
    }
}

/// The names that an index holds are exactly the names of the nodes it is
/// made of, and each name leads to the identifier of the last node that
/// bears it.
pub proof fn lemma_child_index(nodes: Seq<Node>)
    ensures
        forall|name: Seq<char>| #[trigger]
            child_index(nodes).contains_key(name) <==> exists|i: int|
                0 <= i < nodes.len() && (#[trigger] nodes[i]).name@ == name,
        forall|i: int|
            0 <= i < nodes.len() && (forall|j: int|
                i < j < nodes.len() ==> (#[trigger] nodes[j]).name@ != nodes[i].name@)
                ==> child_index(nodes).contains_key((#[trigger] nodes[i]).name@) && child_index(
                nodes,
            )[nodes[i].name@] == nodes[i].id@,
{
    assert forall|name: Seq<char>| #[trigger]
        child_index(nodes).contains_key(name) <==> exists|i: int|
            0 <= i < nodes.len() && (#[trigger] nodes[i]).name@ == name by {
        lemma_lookup(nodes, name);
    }
    assert forall|i: int|
        0 <= i < nodes.len() && (forall|j: int|
            i < j < nodes.len() ==> (#[trigger] nodes[j]).name@ != nodes[i].name@)
            implies child_index(nodes).contains_key((#[trigger] nodes[i]).name@) && child_index(
        nodes,
    )[nodes[i].name@] == nodes[i].id@ by {
        lemma_lookup(nodes, nodes[i].name@);
    }
}

} // verus!
