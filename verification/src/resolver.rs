use vstd::prelude::*;
use crate::document::{
    child_index, children_of, distinct_names, in_scope, is_first_named, lookup, none_named,
    scoped_frames, Canvas, Document, Frame, Node,
};
use crate::index::NameIndex;

verus! {

/// What ends a whole export before anything is exported.
#[derive(Clone, Debug, PartialEq, Eq)]
pub enum ExportError {
    /// No frame in the searched canvases bears the container's name.
    ContainerNotFound(String),
}

/// The contents of an optional string.
pub open spec fn text_of(s: Option<String>) -> Option<Seq<char>> {
    match s {
        Some(t) => Some(t@),
        None => None,
    }
}

/// The frames found in the first `i` canvases open the frames found in all.
proof fn lemma_scoped_prefix(canvases: Seq<Canvas>, page: Option<Seq<char>>, i: int)
    requires
        0 <= i <= canvases.len(),
    ensures
        scoped_frames(canvases.take(i), page).len() <= scoped_frames(canvases, page).len(),
        forall|t: int|
            0 <= t < scoped_frames(canvases.take(i), page).len() ==> #[trigger] scoped_frames(
                canvases.take(i),
                page,
            )[t] == scoped_frames(canvases, page)[t],
    decreases canvases.len(),
{
    if i == canvases.len() {
        assert(canvases.take(i) =~= canvases);
    } else {
        lemma_scoped_prefix(canvases.drop_last(), page, i);
        assert(canvases.drop_last().take(i) =~= canvases.take(i));
    }
}

/// The first frame, in document order, that bears `container_name` on a
/// canvas that is searched.
pub fn find_container<'a>(
    document: &'a Document,
    container_name: &String,
    page_name: &Option<String>,
) -> (found: Option<&'a Frame>)
    ensures
        match found {
            Some(frame) => exists|i: int|
                is_first_named(
                    scoped_frames(document.canvases@, text_of(*page_name)),
                    container_name@,
                    i,
                ) && scoped_frames(document.canvases@, text_of(*page_name))[i] == *frame,
            None => none_named(
                scoped_frames(document.canvases@, text_of(*page_name)),
                container_name@,
            ),
        },
{
    let ghost page = text_of(*page_name);
    let ghost all = document.canvases@;
    let mut i: usize = 0;
    while i < document.canvases.len()
        invariant
            i <= all.len(),
            all == document.canvases@,
            page == text_of(*page_name),
            none_named(scoped_frames(all.take(i as int), page), container_name@),
        decreases all.len() - i,
    {
        let canvas = &document.canvases[i];
        let ghost seen = scoped_frames(all.take(i as int), page);
        proof {
            assert(all.take(i + 1).drop_last() =~= all.take(i as int));
            assert(all.take(i + 1).last() == *canvas);
        }
        let searched = match page_name {
            Some(wanted) => canvas.name == *wanted,
            None => true,
        };
        if searched {
            let ghost upto = scoped_frames(all.take(i + 1), page);
            assert(in_scope(*canvas, page));
            assert(upto == seen + canvas.frames@);
            let mut j: usize = 0;
            while j < canvas.frames.len()
                invariant
                    i < all.len(),
                    all == document.canvases@,
                    page == text_of(*page_name),
                    j <= canvas.frames@.len(),
                    upto == scoped_frames(all.take(i + 1), page),
                    upto == seen + canvas.frames@,
                    none_named(seen, container_name@),
                    forall|t: int| 0 <= t < j ==> (#[trigger] canvas.frames@[t]).name@ != container_name@,
                decreases canvas.frames@.len() - j,
            {
                if canvas.frames[j].name == *container_name {
                    proof {
                        let place = seen.len() + j;
                        lemma_scoped_prefix(all, page, i + 1);
                        let whole = scoped_frames(all, page);
                        assert(whole[place] == upto[place]);
                        assert forall|t: int| 0 <= t < place implies (#[trigger] whole[t]).name@
                            != container_name@ by {
                            assert(whole[t] == upto[t]);
                            if t < seen.len() {
                                assert(upto[t] == seen[t]);
                            } else {
                                assert(upto[t] == canvas.frames@[t - seen.len()]);
                            }
                        }
                        assert(upto[place] == canvas.frames@[j as int]);
                        assert(is_first_named(whole, container_name@, place));
                        assert(whole[place] == canvas.frames@[j as int]);
                    }
                    return Some(&canvas.frames[j]);
                }
                j += 1;
            }
            proof {
                assert forall|t: int| 0 <= t < upto.len() implies (#[trigger] upto[t]).name@
                    != container_name@ by {
                    if t < seen.len() {
                        assert(upto[t] == seen[t]);
                    } else {
                        assert(upto[t] == canvas.frames@[t - seen.len()]);
                    }
                }
            }
        }
        i += 1;
    }
    assert(all.take(i as int) =~= all);
    None
}

/// The index that `children` give: each name leads to the identifier of the
/// last child that bears it.
pub fn build_index(children: &Vec<Node>) -> (index: NameIndex)
    ensures
        index.wf(),
        index@ == child_index(children@),
        index.keys() == distinct_names(children@),
{
    let mut index = NameIndex::new();
    let mut i: usize = 0;
    assert(child_index(children@.take(0)) =~= Map::<Seq<char>, Seq<char>>::empty());
    while i < children.len()
        invariant
            i <= children@.len(),
            index.wf(),
            index@ == child_index(children@.take(i as int)),
            index.keys() == distinct_names(children@.take(i as int)),
        decreases children@.len() - i,
    {
        let child = &children[i];
        proof {
            assert(children@.take(i + 1).drop_last() =~= children@.take(i as int));
            assert(children@.take(i + 1).last() == *child);
            assert(child_index(children@.take(i + 1)) =~= child_index(
                children@.take(i as int),
            ).insert(child.name@, child.id@));
        }
        index.insert(child.name.clone(), child.id.clone());
        i += 1;
    }
    assert(children@.take(i as int) =~= children@);
    index
}

/// Finds the container and indexes its immediate children.
///
/// Fails exactly when no frame on a searched canvas bears the container's
/// name; the error then carries that name.
pub fn resolve(document: &Document, container_name: &String, page_name: &Option<String>) -> (res:
    Result<NameIndex, ExportError>)
    ensures
        match res {
            Ok(index) => index.wf() && exists|i: int|
                is_first_named(
                    scoped_frames(document.canvases@, text_of(*page_name)),
                    container_name@,
                    i,
                ) && index@ == child_index(
                    children_of(scoped_frames(document.canvases@, text_of(*page_name))[i]),
                ) && index.keys() == distinct_names(
                    children_of(scoped_frames(document.canvases@, text_of(*page_name))[i]),
                ),
            Err(ExportError::ContainerNotFound(name)) => name@ == container_name@ && none_named(
                scoped_frames(document.canvases@, text_of(*page_name)),
                container_name@,
            ),
        },
{
    match find_container(document, container_name, page_name) {
        Some(frame) => {
            let index = match &frame.children {
                Some(children) => build_index(children),
                None => {
                    let empty = NameIndex::new();
                    assert(child_index(Seq::<Node>::empty()) =~= Map::<Seq<char>, Seq<char>>::empty());
                    empty
                },
            };
            Ok(index)
        },
        None => Err(ExportError::ContainerNotFound(container_name.clone())),
    }
}

} // verus!
