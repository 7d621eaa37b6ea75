use crate::hash_map::{index_get, index_insert, index_new, NameIndex};
use crate::node_animation::NodeAnimation;
use crate::transform::Transform;
use vstd::prelude::*;

verus! {

/// One node of the static hierarchy.
#[derive(Debug)]
pub struct NodeData {
    pub name: String,
    /// The node's local transform at rest.
    pub transform: Transform,
    pub children: Vec<NodeData>,
    /// The meshes that hang on this node, by index.
    pub meshes: Vec<u32>,
}

pub type BoneName = String;

/// One bone of the skin: its slot in the bone table and its inverse bind pose.
#[derive(Debug)]
pub struct BoneData {
    pub name: String,
    pub bone_index: i32,
    pub offset_transform: Transform,
}

impl BoneData {
    pub fn new(name: &str, id: i32, offset: Transform) -> (r: Self)
        ensures
            r.name@ == name@,
            r.bone_index == id,
            r.offset_transform == offset,
    {
        BoneData { name: name.to_string(), bone_index: id, offset_transform: offset }
    }
}

/// One animation as it was authored: its length in ticks, its rate, and a track for
/// each node that it moves.
#[derive(Debug)]
pub struct ModelAnimation {
    /// The length of the animation, in ticks.
    pub duration: i64,
    /// By how much a playhead of this animation moves on in each microsecond.
    pub ticks_per_second: i64,
    pub node_animations: Vec<NodeAnimation>,
}

impl Default for ModelAnimation {
    /// The animation of a model that has none: no length, no rate, no tracks.
    fn default() -> (r: Self)
        ensures
            r.duration == 0,
            r.ticks_per_second == 0,
            r.node_animations@.len() == 0,
    {
        ModelAnimation { duration: 0, ticks_per_second: 0, node_animations: Vec::new() }
    }
}

impl ModelAnimation {
    /// The first of the given animations, or the empty animation where there is none.
    pub fn new(animations: Vec<ModelAnimation>) -> (r: Self)
        ensures
            animations@.len() == 0 ==> r.duration == 0 && r.ticks_per_second == 0
                && r.node_animations@.len() == 0,
            animations@.len() > 0 ==> r == animations@[0],
    {
        let mut animations = animations;
        if animations.len() == 0 {
            return ModelAnimation::default();
        }
        animations.swap_remove(0)
    }
}

/// Every mesh index in the hierarchy under `node` is below `capacity`.
pub open spec fn meshes_fit(node: NodeData, capacity: int) -> bool
    decreases node,
{
    &&& forall|i: int| 0 <= i < node.meshes@.len() ==> (#[trigger] node.meshes@[i]) < capacity
    &&& forall|c: int|
        0 <= c < node.children@.len() ==> meshes_fit(#[trigger] node.children@[c], capacity)
}

impl NodeData {
    pub fn new(name: &str, transform: Transform, children: Vec<NodeData>, meshes: Vec<u32>) -> (r:
        Self)
        ensures
            r.name@ == name@,
            r.transform == transform,
            r.children == children,
            r.meshes == meshes,
    {
        NodeData { name: name.to_string(), transform, children, meshes }
    }

    /// Whether every mesh index in the hierarchy under this node is below `capacity`.
    pub fn meshes_within(&self, capacity: u32) -> (r: bool)
        ensures
            r == meshes_fit(*self, capacity as int),
        decreases *self,
    {
        let mut i: usize = 0;
        while i < self.meshes.len()
            invariant
                i <= self.meshes@.len(),
                forall|k: int| 0 <= k < i ==> (#[trigger] self.meshes@[k]) < capacity,
            decreases self.meshes@.len() - i,
        {
            if self.meshes[i] >= capacity {
                return false;
            }
            i = i + 1;
        }
        let mut c: usize = 0;
        while c < self.children.len()
            invariant
                c <= self.children@.len(),
                forall|k: int|
                    0 <= k < self.meshes@.len() ==> (#[trigger] self.meshes@[k]) < capacity,
                forall|k: int|
                    0 <= k < c ==> meshes_fit(#[trigger] self.children@[k], capacity as int),
            decreases self.children@.len() - c,
        {
            if !self.children[c].meshes_within(capacity) {
                return false;
            }
            c = c + 1;
        }
        true
    }
}

/// What the bone table holds for one bone.
#[derive(Clone, Copy, Debug, PartialEq, Eq, Structural)]
pub struct BoneRecord {
    pub bone_index: i32,
    pub offset_transform: Transform,
}

/// The table that a list of bones makes: each bone under its name, a later bone in
/// place of an earlier one of the same name.
pub open spec fn bone_map(bones: Seq<BoneData>) -> Map<Seq<char>, BoneRecord>
    decreases bones.len(),
{
    if bones.len() == 0 {
        Map::empty()
    } else {
        bone_map(bones.drop_last()).insert(
            bones.last().name@,
            BoneRecord {
                bone_index: bones.last().bone_index,
                offset_transform: bones.last().offset_transform,
            },
        )
    }
}

/// Every bone of `table` has its slot below `capacity`.
pub open spec fn bones_fit(table: Map<Seq<char>, BoneRecord>, capacity: int) -> bool {
    forall|name: Seq<char>| #[trigger]
        table.contains_key(name) ==> 0 <= table[name].bone_index < capacity
}

/// Some bone of `table` has the slot `slot`.
pub open spec fn slot_taken(table: Map<Seq<char>, BoneRecord>, slot: int) -> bool {
    exists|name: Seq<char>| table.contains_key(name) && #[trigger] table[name].bone_index == slot
}

/// The bones of a skin, found by name.
pub struct BoneTable {
    index: NameIndex,
    bones: Vec<BoneData>,
}

/// The table that `index` makes of `bones`: under each name of the index, the bone in
/// the slot that the index gives.
pub open spec fn indexed_bones(index: Map<Seq<char>, usize>, bones: Seq<BoneData>) -> Map<
    Seq<char>,
    BoneRecord,
> {
    Map::new(
        |name: Seq<char>| index.contains_key(name),
        |name: Seq<char>|
            BoneRecord {
                bone_index: bones[index[name] as int].bone_index,
                offset_transform: bones[index[name] as int].offset_transform,
            },
    )
}

impl View for BoneTable {
    type V = Map<Seq<char>, BoneRecord>;

    closed spec fn view(&self) -> Map<Seq<char>, BoneRecord> {
        indexed_bones(self.index@, self.bones@)
    }
}

impl BoneTable {
    /// The index leads from each name to a bone of that name.
    pub closed spec fn wf(&self) -> bool {
        forall|name: Seq<char>| #[trigger]
            self.index@.contains_key(name) ==> self.index@[name] < self.bones@.len()
                && self.bones@[self.index@[name] as int].name@ == name
    }

    /// The table of the given bones.
    pub fn new(bones: Vec<BoneData>) -> (r: Self)
        ensures
            r.wf(),
            r@ == bone_map(bones@),
    {
        let mut index = index_new();
        let mut i: usize = 0;
        assert(indexed_bones(index@, bones@) =~= bone_map(bones@.take(0)));
        while i < bones.len()
            invariant
                i <= bones@.len(),
                forall|name: Seq<char>| #[trigger]
                    index@.contains_key(name) ==> index@[name] < i
                        && bones@[index@[name] as int].name@ == name,
                indexed_bones(index@, bones@) == bone_map(bones@.take(i as int)),
            decreases bones@.len() - i,
        {
            index_insert(&mut index, bones[i].name.as_str(), i);
            proof {
                assert(bones@.take(i + 1).drop_last() =~= bones@.take(i as int));
                assert(bones@.take(i + 1).last() == bones@[i as int]);
                assert(indexed_bones(index@, bones@) =~= bone_map(bones@.take(i + 1)));
            }
            i = i + 1;
        }
        assert(bones@.take(i as int) =~= bones@);
        BoneTable { index, bones }
    }

    /// The table of no bones.
    pub fn empty() -> (r: Self)
        ensures
            r.wf(),
            r.dense(),
            r.count() == 0,
            r@ == Map::<Seq<char>, BoneRecord>::empty(),
    {
        let r = BoneTable { index: index_new(), bones: Vec::new() };
        assert(r@ =~= Map::<Seq<char>, BoneRecord>::empty());
        r
    }

    /// The number of slots that the bones of a dense table take.
    pub closed spec fn count(&self) -> int {
        self.bones@.len() as int
    }

    /// The bones take the slots from nought on, one each, in the order in which they
    /// were registered.
    pub closed spec fn dense(&self) -> bool {
        &&& self.bones@.len() <= i32::MAX
        &&& forall|i: int|
            0 <= i < self.bones@.len() ==> (#[trigger] self.bones@[i]).bone_index == i
                && self.index@.contains_key(self.bones@[i].name@)
                && self.index@[self.bones@[i].name@] == i
    }

    /// In a dense table every bone has a slot below the count, no two bones share a
    /// slot, and every slot below the count is some bone's.
    pub proof fn lemma_dense_slots(&self)
        requires
            self.wf(),
            self.dense(),
        ensures
            bones_fit(self@, self.count()),
            forall|a: Seq<char>, b: Seq<char>|
                self@.contains_key(a) && self@.contains_key(b) && self@[a].bone_index
                    == self@[b].bone_index ==> a == b,
            forall|slot: int| 0 <= slot < self.count() ==> #[trigger] slot_taken(self@, slot),
    {
        assert forall|name: Seq<char>| #[trigger] self@.contains_key(name) implies 0
            <= self@[name].bone_index < self.count() by {
            assert(self.index@.contains_key(name));
            assert(self.bones@[self.index@[name] as int].bone_index == self.index@[name]);
        }
        assert forall|a: Seq<char>, b: Seq<char>|
            self@.contains_key(a) && self@.contains_key(b) && self@[a].bone_index
                == self@[b].bone_index implies a == b by {
            assert(self.index@.contains_key(a));
            assert(self.index@.contains_key(b));
            assert(self.bones@[self.index@[a] as int].bone_index == self.index@[a]);
            assert(self.bones@[self.index@[b] as int].bone_index == self.index@[b]);
        }
        assert forall|slot: int| 0 <= slot < self.count() implies #[trigger] slot_taken(
            self@,
            slot,
        ) by {
            let name = self.bones@[slot].name@;
            assert(self.bones@[slot].bone_index == slot);
            assert(self@.contains_key(name) && self@[name].bone_index == slot);
        }
    }

    /// Whether the table is dense.
    pub fn is_dense(&self) -> (r: bool)
        ensures
            r == self.dense(),
    {
        if self.bones.len() > i32::MAX as usize {
            return false;
        }
        let mut i: usize = 0;
        while i < self.bones.len()
            invariant
                i <= self.bones@.len(),
                self.bones@.len() <= i32::MAX,
                forall|k: int|
                    0 <= k < i ==> (#[trigger] self.bones@[k]).bone_index == k
                        && self.index@.contains_key(self.bones@[k].name@)
                        && self.index@[self.bones@[k].name@] == k,
            decreases self.bones@.len() - i,
        {
            let bone = &self.bones[i];
            let slot = index_get(&self.index, bone.name.as_str());
            if bone.bone_index != i as i32 || slot != Some(i) {
                assert(!((#[trigger] self.bones@[i as int]).bone_index == i
                    && self.index@.contains_key(self.bones@[i as int].name@)
                    && self.index@[self.bones@[i as int].name@] == i));
                return false;
            }
            i = i + 1;
        }
        true
    }

    /// The number of slots that the bones of a dense table take.
    pub fn len(&self) -> (r: usize)
        ensures
            r == self.count(),
    {
        self.bones.len()
    }

    /// The slot of the bone called `name`: the slot that it has, or else the next free
    /// slot, which the bone then takes with the given inverse bind pose.
    pub fn register(&mut self, name: &str, offset: Transform) -> (r: i32)
        requires
            old(self).wf(),
            old(self).dense(),
            old(self).count() < i32::MAX,
        ensures
            final(self).wf(),
            final(self).dense(),
            old(self)@.contains_key(name@) ==> r == old(self)@[name@].bone_index && final(self)@
                == old(self)@ && final(self).count() == old(self).count(),
            !old(self)@.contains_key(name@) ==> r == old(self).count() && final(self)@
                == old(self)@.insert(name@, BoneRecord { bone_index: r, offset_transform: offset })
                && final(self).count() == old(self).count() + 1,
    {
        match index_get(&self.index, name) {
            Some(i) => {
                assert(self.index@.contains_key(name@));
                self.bones[i].bone_index
            },
            None => {
                let slot = self.bones.len();
                let bone_id = slot as i32;
                index_insert(&mut self.index, name, slot);
                self.bones.push(BoneData::new(name, bone_id, offset));
                proof {
                    assert forall|k: Seq<char>| #[trigger]
                        self.index@.contains_key(k) implies self.index@[k] < self.bones@.len()
                        && self.bones@[self.index@[k] as int].name@ == k by {
                        if k != name@ {
                            assert(old(self).index@.contains_key(k));
                        }
                    }
                    assert forall|i: int| 0 <= i < self.bones@.len() implies (
                    #[trigger] self.bones@[i]).bone_index == i && self.index@.contains_key(
                        self.bones@[i].name@,
                    ) && self.index@[self.bones@[i].name@] == i by {
                        if i < slot {
                            assert(self.bones@[i] == old(self).bones@[i]);
                            assert(old(self).index@.contains_key(old(self).bones@[i].name@));
                        }
                    }
                    assert(self@ =~= old(self)@.insert(
                        name@,
                        BoneRecord { bone_index: bone_id, offset_transform: offset },
                    )) by {
                        assert forall|k: Seq<char>|
                            old(self)@.contains_key(k) implies #[trigger] self@[k]
                            == old(self)@[k] by {
                            assert(old(self).index@.contains_key(k));
                        }
                    }
                }
                bone_id
            },
        }
    }

    /// The bone called `name`, if the table has one.
    pub fn get(&self, name: &str) -> (r: Option<&BoneData>)
        requires
            self.wf(),
        ensures
            match r {
                Some(bone) => self@.contains_key(name@) && bone.name@ == name@ && self@[name@] == (
                BoneRecord {
                    bone_index: bone.bone_index,
                    offset_transform: bone.offset_transform,
                }),
                None => !self@.contains_key(name@),
            },
    {
        match index_get(&self.index, name) {
            Some(i) => {
                assert(self.index@.contains_key(name@));
                Some(&self.bones[i])
            },
            None => None,
        }
    }

    /// Whether every bone of the table has its slot below `capacity`.
    pub fn fits(&self, capacity: usize) -> (r: bool)
        requires
            self.wf(),
        ensures
            r == bones_fit(self@, capacity as int),
    {
        let mut i: usize = 0;
        while i < self.bones.len()
            invariant
                self.wf(),
                i <= self.bones@.len(),
                forall|name: Seq<char>| #[trigger]
                    self.index@.contains_key(name) && self.index@[name] < i ==> 0
                        <= self.bones@[self.index@[name] as int].bone_index < capacity,
            decreases self.bones@.len() - i,
        {
            let bone = &self.bones[i];
            match index_get(&self.index, bone.name.as_str()) {
                Some(slot) => {
                    if slot == i && (bone.bone_index < 0 || bone.bone_index as usize >= capacity) {
                        assert(self@.contains_key(bone.name@));
                        return false;
                    }
                },
                None => {},
            }
            assert forall|name: Seq<char>| #[trigger]
                self.index@.contains_key(name) && self.index@[name] < i + 1 implies 0
                <= self.bones@[self.index@[name] as int].bone_index < capacity by {
                if self.index@[name] == i {
                    assert(self.bones@[i as int].name@ == name);
                }
            }
            i = i + 1;
        }
        assert forall|name: Seq<char>| #[trigger] self@.contains_key(name) implies 0
            <= self@[name].bone_index < capacity by {
            assert(self.index@.contains_key(name));
        }
        true
    }
}

} // verus!
