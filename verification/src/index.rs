use vstd::prelude::*;
use crate::document::{child_index, lookup, lemma_lookup, Node};
use crate::text::texts;

verus! {

/// The names of a container's children, each with the identifier it leads
/// to. Every name is held once; the names keep the order in which they were
/// first entered.
pub struct NameIndex {
    entries: Vec<Node>,
}

impl View for NameIndex {
    type V = Map<Seq<char>, Seq<char>>;

    closed spec fn view(&self) -> Map<Seq<char>, Seq<char>> {
        child_index(self.entries@)
    }
}

impl NameIndex {
    /// The names held, in the order in which they were first entered.
    pub closed spec fn keys(&self) -> Seq<Seq<char>> {
        Seq::new(self.entries@.len(), |i: int| self.entries@[i].name@)
    }

    /// No name is held twice.
    pub closed spec fn wf(&self) -> bool {
        forall|i: int, j: int|
            0 <= i < j < self.entries@.len() ==> (#[trigger] self.entries@[i]).name@
                != (#[trigger] self.entries@[j]).name@
    }

    /// The names held are the names that lead somewhere, each once.
    pub proof fn lemma_keys(&self)
        requires
            self.wf(),
        ensures
            self.keys().no_duplicates(),
            forall|name: Seq<char>| self@.contains_key(name) <==> self.keys().contains(name),
    {
        let keys = self.keys();
        assert forall|name: Seq<char>| self@.contains_key(name) <==> keys.contains(name) by {
            lemma_lookup(self.entries@, name);
            if self@.contains_key(name) {
                let i = choose|i: int|
                    0 <= i < self.entries@.len() && (#[trigger] self.entries@[i]).name@ == name;
                assert(keys[i] == name);
            }
            if keys.contains(name) {
                let i = choose|i: int| 0 <= i < keys.len() && keys[i] == name;
                assert(self.entries@[i].name@ == name);
            }
        }
        assert forall|i: int, j: int| 0 <= i < keys.len() && 0 <= j < keys.len() && i != j implies keys[i]
            != keys[j] by {
            if i < j {
                assert(self.entries@[i].name@ != self.entries@[j].name@);
            } else {
                assert(self.entries@[j].name@ != self.entries@[i].name@);
            }
        }
    }

    /// An index that holds nothing.
    pub fn new() -> (index: NameIndex)
        ensures
            index.wf(),
            index@ == Map::<Seq<char>, Seq<char>>::empty(),
            index.keys() == Seq::<Seq<char>>::empty(),
    {
        let index = NameIndex { entries: Vec::new() };
        assert(index@ =~= Map::<Seq<char>, Seq<char>>::empty());
        assert(index.keys() =~= Seq::<Seq<char>>::empty());
        index
    }

    /// How many names are held.
    pub fn len(&self) -> (n: usize)
        ensures
            n == self.keys().len(),
    {
        self.entries.len()
    }

    fn position(&self, name: &String) -> (found: Option<usize>)
        ensures
            match found {
                Some(i) => i < self.entries@.len() && self.entries@[i as int].name@ == name@
                    && lookup(self.entries@, name@) == Some(self.entries@[i as int].id@),
                None => lookup(self.entries@, name@) is None && forall|i: int|
                    0 <= i < self.entries@.len() ==> (#[trigger] self.entries@[i]).name@ != name@,
            },
    {
        let mut i: usize = self.entries.len();
        assert(self.entries@.take(i as int) =~= self.entries@);
        while i > 0
            invariant
                i <= self.entries@.len(),
                lookup(self.entries@, name@) == lookup(self.entries@.take(i as int), name@),
                forall|j: int| i <= j < self.entries@.len() ==> (#[trigger] self.entries@[j]).name@ != name@,
            decreases i,
        {
            i -= 1;
            assert(self.entries@.take(i + 1).drop_last() =~= self.entries@.take(i as int));
            if self.entries[i].name == *name {
                return Some(i);
            }
        }
        None
    }

    /// The identifier that `name` leads to, if it is held.
    pub fn get(&self, name: &String) -> (found: Option<&String>)
        ensures
            match found {
                Some(id) => self@.contains_key(name@) && self@[name@] == id@,
                None => !self@.contains_key(name@),
            },
    {
        match self.position(name) {
            Some(i) => Some(&self.entries[i].id),
            None => None,
        }
    }

    /// Enters `name` with `id`. A name that is held already keeps its place
    /// and leads to `id` from now on.
    pub fn insert(&mut self, name: String, id: String)
        requires
            old(self).wf(),
        ensures
            final(self).wf(),
            final(self)@ == old(self)@.insert(name@, id@),
            final(self).keys() == if old(self)@.contains_key(name@) {
                old(self).keys()
            } else {
                old(self).keys().push(name@)
            },
    {
        let ghost before = self.entries@;
        let found = self.position(&name);
        let node = Node { name, id };
        match found {
            Some(i) => {
                self.entries.set(i, node);
                proof {
                    lemma_replaced(before, i as int, node);
                    assert(self@ =~= old(self)@.insert(name@, id@));
                    assert(self.keys() =~= old(self).keys());
                }
            },
            None => {
                self.entries.push(node);
                proof {
                    assert(self.entries@.drop_last() =~= before);
                    assert(self@ =~= old(self)@.insert(name@, id@));
                    assert(self.keys() =~= old(self).keys().push(name@));
                }
            },
        }
    }

    /// The names held, in the order in which they were first entered.
    pub fn names(&self) -> (out: Vec<String>)
        ensures
            texts(out@) == self.keys(),
    {
        let mut out: Vec<String> = Vec::new();
        let mut i: usize = 0;
        while i < self.entries.len()
            invariant
                i <= self.entries@.len(),
                out@.len() == i,
                forall|t: int| 0 <= t < i ==> (#[trigger] out@[t])@ == self.entries@[t].name@,
            decreases self.entries@.len() - i,
        {
            out.push(self.entries[i].name.clone());
            i += 1;
        }
        assert(texts(out@) =~= self.keys());
        out
    }
}

/// Putting a node in the place of another of the same name changes only
/// what that name leads to, wherever no later node bears the name.
proof fn lemma_replaced(nodes: Seq<Node>, i: int, node: Node)
    requires
        0 <= i < nodes.len(),
        nodes[i].name@ == node.name@,
        forall|j: int| i < j < nodes.len() ==> (#[trigger] nodes[j]).name@ != node.name@,
    ensures
        forall|name: Seq<char>|
            #[trigger] lookup(nodes.update(i, node), name) == if name == node.name@ {
                Some(node.id@)
            } else {
                lookup(nodes, name)
            },
    decreases nodes.len(),
{
    let after = nodes.update(i, node);
    let front = nodes.drop_last();
    if i == nodes.len() - 1 {
        assert(after.drop_last() =~= front);
    } else {
        lemma_replaced(front, i, node);
        assert(after.drop_last() =~= front.update(i, node));
        assert(nodes[nodes.len() - 1].name@ != node.name@);
    }
    assert forall|name: Seq<char>|
        #[trigger] lookup(after, name) == if name == node.name@ {
            Some(node.id@)
        } else {
            lookup(nodes, name)
        } by {
        if i == nodes.len() - 1 {
            assert(after.last() == node);
            assert(nodes.last().name@ == node.name@);
        } else {
            assert(after.last() == nodes.last());
            assert(lookup(after.drop_last(), name) == lookup(front.update(i, node), name));
        }
    }
}

} // verus!
