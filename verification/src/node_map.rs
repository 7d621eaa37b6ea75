use crate::hash_map::{index_clear, index_get, index_insert, index_new, NameIndex};
use crate::transform::Pose;
use vstd::prelude::*;

verus! {

/// What the node map holds for one node in the current frame.
#[derive(Debug)]
pub struct NodeTransform {
    /// The node's global pose.
    pub transform: Pose,
    /// The meshes that hang on the node.
    pub meshes: Vec<u32>,
}

impl NodeTransform {
    pub fn new(transform: Pose, meshes_vec: &Vec<u32>) -> (r: Self)
        ensures
            r.transform == transform,
            r.meshes@ == meshes_vec@,
    {
        NodeTransform { transform, meshes: meshes_vec.clone() }
    }
}

/// One entry of the node map as a mathematical value.
pub struct NodeRecord {
    pub name: Seq<char>,
    pub transform: Pose,
    pub meshes: Seq<u32>,
}

/// Some entry of `map` belongs to the node called `name`.
pub open spec fn has_name(map: Seq<NodeRecord>, name: Seq<char>) -> bool {
    exists|i: int| 0 <= i < map.len() && #[trigger] map[i].name == name
}

/// The position in `map` of the entry for the node called `name`.
pub open spec fn slot_of(map: Seq<NodeRecord>, name: Seq<char>) -> int {
    choose|i: int| 0 <= i < map.len() && #[trigger] map[i].name == name
}

/// No two entries of `map` belong to the same name.
pub open spec fn distinct_names(map: Seq<NodeRecord>) -> bool {
    forall|i: int, j: int|
        0 <= i < j < map.len() ==> (#[trigger] map[i]).name != (#[trigger] map[j]).name
}

/// The node map after one more global pose was written for `name`: the first pose
/// written for a name is taken as it is, with the node's meshes; every later one is
/// blended into what the map holds for the name, at `weight`.
pub open spec fn written(
    map: Seq<NodeRecord>,
    name: Seq<char>,
    meshes: Seq<u32>,
    global: Pose,
    weight: i64,
) -> Seq<NodeRecord> {
    if has_name(map, name) {
        let i = slot_of(map, name);
        map.update(
            i,
            NodeRecord {
                name: map[i].name,
                transform: Pose::Blend(Box::new(map[i].transform), Box::new(global), weight),
                meshes: map[i].meshes,
            },
        )
    } else {
        map.push(NodeRecord { name, transform: global, meshes })
    }
}

/// Writing keeps the names apart.
pub proof fn lemma_written_distinct(
    map: Seq<NodeRecord>,
    name: Seq<char>,
    meshes: Seq<u32>,
    global: Pose,
    weight: i64,
)
    requires
        distinct_names(map),
    ensures
        distinct_names(written(map, name, meshes, global, weight)),
        written(map, name, meshes, global, weight).len() >= map.len(),
{
    let after = written(map, name, meshes, global, weight);
    if has_name(map, name) {
        let i = slot_of(map, name);
        assert forall|a: int, b: int| 0 <= a < b < after.len() implies (#[trigger] after[a]).name
            != (#[trigger] after[b]).name by {
            assert(after[a].name == map[a].name);
            assert(after[b].name == map[b].name);
        }
    } else {
        assert forall|a: int, b: int| 0 <= a < b < after.len() implies (#[trigger] after[a]).name
            != (#[trigger] after[b]).name by {
            if b < map.len() {
                assert(after[a].name == map[a].name);
                assert(after[b].name == map[b].name);
            } else {
                assert(after[a] == map[a]);
                assert(map[a].name != name);
            }
        }
    }
}

/// The per-frame scratch map from node names to global poses. Entries keep the order
/// in which their names were first written.
pub struct NodeMap {
    index: NameIndex,
    names: Vec<String>,
    entries: Vec<NodeTransform>,
}

impl View for NodeMap {
    type V = Seq<NodeRecord>;

    closed spec fn view(&self) -> Seq<NodeRecord> {
        Seq::new(
            self.entries@.len(),
            |i: int|
                NodeRecord {
                    name: self.names@[i]@,
                    transform: self.entries@[i].transform,
                    meshes: self.entries@[i].meshes@,
                },
        )
    }
}

impl NodeMap {
    /// The index and the entries agree.
    pub closed spec fn wf(&self) -> bool {
        &&& self.names@.len() == self.entries@.len()
        &&& forall|i: int|
            0 <= i < self.names@.len() ==> self.index@.contains_key(#[trigger] self.names@[i]@)
                && self.index@[self.names@[i]@] == i
        &&& forall|k: Seq<char>| #[trigger]
            self.index@.contains_key(k) ==> self.index@[k] < self.names@.len()
                && self.names@[self.index@[k] as int]@ == k
    }

    /// In a well-formed map every name occurs once.
    pub proof fn lemma_distinct(&self)
        requires
            self.wf(),
        ensures
            distinct_names(self@),
    {
        assert forall|i: int, j: int| 0 <= i < j < self@.len() implies (#[trigger] self@[i]).name
            != (#[trigger] self@[j]).name by {
            assert(self.index@[self.names@[i]@] == i);
            assert(self.index@[self.names@[j]@] == j);
        }
    }

    pub fn new() -> (r: Self)
        ensures
            r.wf(),
            r@ == Seq::<NodeRecord>::empty(),
    {
        let r = NodeMap { index: index_new(), names: Vec::new(), entries: Vec::new() };
        assert(r@ =~= Seq::<NodeRecord>::empty());
        r
    }

    /// Empties the map.
    pub fn clear(&mut self)
        ensures
            final(self).wf(),
            final(self)@ == Seq::<NodeRecord>::empty(),
    {
        index_clear(&mut self.index);
        self.names.clear();
        self.entries.clear();
        assert(self@ =~= Seq::<NodeRecord>::empty());
    }

    /// The number of entries.
    pub fn len(&self) -> (r: usize)
        requires
            self.wf(),
        ensures
            r == self@.len(),
    {
        self.entries.len()
    }

    /// The position of the entry for `name`, if the map has one.
    pub fn find(&self, name: &str) -> (r: Option<usize>)
        requires
            self.wf(),
        ensures
            match r {
                Some(i) => has_name(self@, name@) && i == slot_of(self@, name@) && i < self@.len()
                    && self@[i as int].name == name@,
                None => !has_name(self@, name@),
            },
    {
        let r = index_get(&self.index, name);
        proof {
            self.lemma_distinct();
            match r {
                Some(i) => {
                    assert(self.index@.contains_key(name@));
                    assert(i < self.names@.len());
                    assert(self@[i as int].name == name@);
                    assert(has_name(self@, name@));
                    let j = slot_of(self@, name@);
                    assert(self@[j].name == name@);
                    if j != i as int {
                        if j < i as int {
                            assert(self@[j].name != self@[i as int].name);
                        } else {
                            assert(self@[i as int].name != self@[j].name);
                        }
                    }
                },
                None => {
                    if has_name(self@, name@) {
                        let j = slot_of(self@, name@);
                        assert(self@[j].name == name@);
                        assert(self.index@.contains_key(self.names@[j]@));
                    }
                },
            }
        }
        r
    }

    /// The name of the entry at position `i`.
    pub fn name_at(&self, i: usize) -> (r: &String)
        requires
            self.wf(),
            i < self@.len(),
        ensures
            r@ == self@[i as int].name,
    {
        &self.names[i]
    }

    /// The entry at position `i`.
    pub fn entry_at(&self, i: usize) -> (r: &NodeTransform)
        requires
            self.wf(),
            i < self@.len(),
        ensures
            r.transform == self@[i as int].transform,
            r.meshes@ == self@[i as int].meshes,
    {
        &self.entries[i]
    }

    /// Writes one global pose for the node called `name`.
    pub fn write(&mut self, name: &str, meshes: &Vec<u32>, global: Pose, weight: i64)
        requires
            old(self).wf(),
        ensures
            final(self).wf(),
            final(self)@ == written(old(self)@, name@, meshes@, global, weight),
    {
        match self.find(name) {
            Some(i) => {
                let blended = self.entries[i].transform.clone().mul_transform_weighted(
                    global,
                    weight,
                );
                let kept = self.entries[i].meshes.clone();
                self.entries.set(i, NodeTransform { transform: blended, meshes: kept });
                assert(self@ =~= written(old(self)@, name@, meshes@, global, weight));
            },
            None => {
                let slot = self.entries.len();
                index_insert(&mut self.index, name, slot);
                self.names.push(name.to_string());
                self.entries.push(NodeTransform::new(global, meshes));
                assert(self@ =~= written(old(self)@, name@, meshes@, global, weight));
                assert forall|k: Seq<char>| #[trigger]
                    self.index@.contains_key(k) implies self.index@[k] < self.names@.len()
                    && self.names@[self.index@[k] as int]@ == k by {
                    if k != name@ {
                        assert(old(self).index@.contains_key(k));
                    }
                }
                assert forall|i: int| 0 <= i < self.names@.len() implies self.index@.contains_key(
                    #[trigger] self.names@[i]@,
                ) && self.index@[self.names@[i]@] == i by {
                    if i < slot {
                        assert(self.names@[i] == old(self).names@[i]);
                        assert(old(self).index@.contains_key(old(self).names@[i]@));
                        assert(old(self)@[i].name == old(self).names@[i]@);
                    }
                }
            },
        }
    }
}

} // verus!
