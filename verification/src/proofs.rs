use crate::animator::{
    bone_slot_after, decline_for, drives_bone, frame_map, global_pose, has_track, local_pose,
    blend_weighted, node_slot_after, stepped_all, surviving, track_of, uses_mesh, walk,
    walk_children,
    AnimationTransition, PlayingAnimation, WeightedAnimation,
};
use crate::model_animation::{BoneRecord, NodeData};
use crate::node_animation::{sample_track, NodeAnimation};
use crate::node_map::{distinct_names, has_name, slot_of, written, NodeRecord};
use crate::transform::{Pose, FULL_WEIGHT};
use vstd::prelude::*;

verus! {

/// The sum of the given time steps.
pub open spec fn total_time(steps: Seq<i64>) -> int
    decreases steps.len(),
{
    if steps.len() == 0 {
        0
    } else {
        total_time(steps.drop_last()) + steps.last()
    }
}

/// The transitions that are left after one frame for each of the given time steps:
/// in each frame they age, those that have faded out are dropped, and the playheads
/// of the others move on.
pub open spec fn aged_through(transitions: Seq<AnimationTransition>, steps: Seq<i64>) -> Seq<
    AnimationTransition,
>
    decreases steps.len(),
{
    if steps.len() == 0 {
        transitions
    } else {
        stepped_all(
            surviving(aged_through(transitions, steps.drop_last()), steps.last()),
            steps.last(),
        )
    }
}

/// The transition declines at `rate` or faster and has done so for `elapsed`
/// microseconds since it had at most full weight.
pub open spec fn fading_since(transition: AnimationTransition, rate: int, elapsed: int) -> bool {
    &&& transition.weight_decline_per_sec >= rate
    &&& transition.current_weight <= FULL_WEIGHT - rate * elapsed
}

/// A transition that survives a frame of `delta_time` microseconds has lost exactly
/// its rate of decline times `delta_time` in weight, and a transition survives
/// exactly where what is left is positive.
pub proof fn lemma_weight_declines(transition: AnimationTransition, delta_time: i64)
    requires
        delta_time >= 0,
        transition.weight_decline_per_sec >= 0,
    ensures
        transition.aged(delta_time).current_weight <= transition.current_weight,
        transition.aged(delta_time).current_weight > 0 <==> transition.current_weight
            - transition.weight_decline_per_sec * delta_time > 0,
        transition.aged(delta_time).current_weight > 0 ==> transition.aged(
            delta_time,
        ).current_weight == transition.current_weight - transition.weight_decline_per_sec
            * delta_time,
        surviving(seq![transition], delta_time) == (if transition.current_weight
            - transition.weight_decline_per_sec * delta_time > 0 {
            seq![transition.aged(delta_time)]
        } else {
            Seq::empty()
        }),
{
    assert(transition.weight_decline_per_sec * delta_time >= 0) by (nonlinear_arith)
        requires
            delta_time >= 0,
            transition.weight_decline_per_sec >= 0,
    ;
    let one = seq![transition];
    assert(one.drop_last() =~= Seq::<AnimationTransition>::empty());
    assert(one.last() == transition);
    assert(surviving(one.drop_last(), delta_time) =~= Seq::<AnimationTransition>::empty());
    assert(Seq::<AnimationTransition>::empty().push(transition.aged(delta_time))
        =~= seq![transition.aged(delta_time)]);
}

/// Every transition that is left after a frame was there before it, has a positive
/// weight, and has been fading for the time of the frame longer.
pub proof fn lemma_surviving_fade(
    transitions: Seq<AnimationTransition>,
    delta_time: i64,
    rate: int,
    elapsed: int,
)
    requires
        delta_time >= 0,
        rate >= 0,
        forall|i: int|
            0 <= i < transitions.len() ==> fading_since(#[trigger] transitions[i], rate, elapsed),
    ensures
        surviving(transitions, delta_time).len() <= transitions.len(),
        forall|i: int|
            0 <= i < surviving(transitions, delta_time).len() ==> fading_since(
                #[trigger] surviving(transitions, delta_time)[i],
                rate,
                elapsed + delta_time,
            ) && surviving(transitions, delta_time)[i].current_weight > 0,
    decreases transitions.len(),
{
    if transitions.len() > 0 {
        let before = transitions.drop_last();
        assert forall|i: int| 0 <= i < before.len() implies fading_since(
            #[trigger] before[i],
            rate,
            elapsed,
        ) by {
            assert(before[i] == transitions[i]);
        }
        lemma_surviving_fade(before, delta_time, rate, elapsed);
        let last = transitions.last();
        assert(fading_since(last, rate, elapsed));
        let aged = last.aged(delta_time);
        assert(last.weight_decline_per_sec * delta_time >= rate * delta_time) by (nonlinear_arith)
            requires
                last.weight_decline_per_sec >= rate,
                delta_time >= 0,
        ;
        assert(rate * delta_time >= 0) by (nonlinear_arith)
            requires
                rate >= 0,
                delta_time >= 0,
        ;
        assert(rate * (elapsed + delta_time) == rate * elapsed + rate * delta_time)
            by (nonlinear_arith);
        if aged.current_weight > 0 {
            assert(aged.current_weight == last.current_weight - last.weight_decline_per_sec
                * delta_time);
            assert(fading_since(aged, rate, elapsed + delta_time));
        }
    }
}

/// Every transition that is left after the given frames has been fading for all their
/// time, and has a positive weight where there was a frame at all.
pub proof fn lemma_aged_through_fade(
    transitions: Seq<AnimationTransition>,
    steps: Seq<i64>,
    rate: int,
)
    requires
        rate >= 0,
        forall|k: int| 0 <= k < steps.len() ==> #[trigger] steps[k] >= 0,
        forall|i: int|
            0 <= i < transitions.len() ==> fading_since(#[trigger] transitions[i], rate, 0),
    ensures
        forall|i: int|
            0 <= i < aged_through(transitions, steps).len() ==> fading_since(
                #[trigger] aged_through(transitions, steps)[i],
                rate,
                total_time(steps),
            ) && (steps.len() > 0 ==> aged_through(transitions, steps)[i].current_weight > 0),
    decreases steps.len(),
{
    if steps.len() > 0 {
        let earlier = steps.drop_last();
        assert forall|k: int| 0 <= k < earlier.len() implies #[trigger] earlier[k] >= 0 by {
            assert(earlier[k] == steps[k]);
        }
        lemma_aged_through_fade(transitions, earlier, rate);
        let before = aged_through(transitions, earlier);
        lemma_surviving_fade(before, steps.last(), rate, total_time(earlier));
        let left = surviving(before, steps.last());
        let after = stepped_all(left, steps.last());
        assert forall|i: int| 0 <= i < after.len() implies fading_since(
            #[trigger] after[i],
            rate,
            total_time(steps),
        ) && after[i].current_weight > 0 by {
            assert(after[i] == left[i].stepped(steps.last()));
            assert(fading_since(left[i], rate, total_time(earlier) + steps.last()));
        }
    } else {
        assert(rate * 0 == 0) by (nonlinear_arith);
    }
}

/// A fade of `duration` microseconds is over once frames of that much time in all
/// have passed: no transition that had at most full weight and declines at the rate
/// for that duration, or faster, is left.
pub proof fn lemma_no_transition_outlives_its_fade(
    transitions: Seq<AnimationTransition>,
    steps: Seq<i64>,
    duration: u64,
)
    requires
        duration > 0,
        forall|k: int| 0 <= k < steps.len() ==> #[trigger] steps[k] >= 0,
        total_time(steps) >= duration,
        forall|i: int|
            0 <= i < transitions.len() ==> (#[trigger] transitions[i]).current_weight <= FULL_WEIGHT
                && transitions[i].weight_decline_per_sec >= decline_for(duration),
    ensures
        aged_through(transitions, steps).len() == 0,
{
    let rate = decline_for(duration) as int;
    let d = duration as int;
    let quotient = (FULL_WEIGHT + d - 1) / d;
    assert(0 <= quotient <= FULL_WEIGHT) by (nonlinear_arith)
        requires
            d > 0,
            quotient == (FULL_WEIGHT + d - 1) / d,
            FULL_WEIGHT == 1_000_000_000_000_000,
    ;
    assert(rate == quotient);
    assert(rate * d >= FULL_WEIGHT && rate >= 0) by (nonlinear_arith)
        requires
            d > 0,
            rate == (FULL_WEIGHT + d - 1) / d,
            FULL_WEIGHT == 1_000_000_000_000_000,
    ;
    assert forall|i: int| 0 <= i < transitions.len() implies fading_since(
        #[trigger] transitions[i],
        rate,
        0,
    ) by {
        assert(rate * 0 == 0) by (nonlinear_arith);
    }
    lemma_aged_through_fade(transitions, steps, rate);
    let left = aged_through(transitions, steps);
    if left.len() > 0 {
        assert(fading_since(left[0], rate, total_time(steps)));
        assert(steps.len() > 0);
        assert(left[0].current_weight > 0);
        assert(rate * total_time(steps) >= rate * d) by (nonlinear_arith)
            requires
                rate >= 0,
                total_time(steps) >= d,
        ;
    }
}

/// A node for which no track was authored stands in its pose at rest: its local pose
/// is its own transform at every tick, and its global pose is that transform under
/// the global pose of its parent.
pub proof fn lemma_untracked_node_rests(
    node: NodeData,
    tracks: Seq<NodeAnimation>,
    parent: Pose,
    tick: i64,
)
    requires
        !has_track(tracks, node.name@),
    ensures
        local_pose(node, tracks, tick) == Some(Pose::Fixed(node.transform)),
        global_pose(node, tracks, parent, tick) == Some(
            Pose::Compose(Box::new(parent), Box::new(Pose::Fixed(node.transform))),
        ),
{
}

/// A node without children whose name the map does not hold yet is written as it is:
/// the walk adds one entry to the map, with the node's global pose and its meshes.
pub proof fn lemma_walk_writes_new_leaf(
    node: NodeData,
    tracks: Seq<NodeAnimation>,
    parent: Pose,
    tick: i64,
    weight: i64,
    map: Seq<NodeRecord>,
)
    requires
        node.children@.len() == 0,
        !has_name(map, node.name@),
        global_pose(node, tracks, parent, tick) is Some,
    ensures
        walk(node, tracks, parent, tick, weight, map) == Some(
            map.push(
                NodeRecord {
                    name: node.name@,
                    transform: global_pose(node, tracks, parent, tick)->Some_0,
                    meshes: node.meshes@,
                },
            ),
        ),
{
    let global = global_pose(node, tracks, parent, tick)->Some_0;
    let after = written(map, node.name@, node.meshes@, global, weight);
    assert(walk_children(node, 0, tracks, global, tick, weight, after) == Some(after));
}

/// The slot of a bone whose node was written last holds the node's global pose
/// composed with the bone's inverse bind pose.
pub proof fn lemma_bone_slot_of_last_record(
    records: Seq<NodeRecord>,
    record: NodeRecord,
    table: Map<Seq<char>, BoneRecord>,
    slot: int,
    before: Pose,
)
    requires
        drives_bone(record, table, slot),
    ensures
        bone_slot_after(records.push(record), table, slot, before) == Pose::Compose(
            Box::new(record.transform),
            Box::new(Pose::Fixed(table[record.name].offset_transform)),
        ),
{
    assert(records.push(record).last() == record);
}

/// In a model of a single node for which no track was authored, the frame's node map
/// holds that node in its pose at rest under the base pose, and the node's bone gets
/// that pose composed with the bone's inverse bind pose.
pub proof fn lemma_resting_bone_pose(
    root: NodeData,
    tracks: Seq<NodeAnimation>,
    base: Pose,
    tick: i64,
    table: Map<Seq<char>, BoneRecord>,
    before: Pose,
)
    requires
        root.children@.len() == 0,
        !has_track(tracks, root.name@),
        table.contains_key(root.name@),
    ensures
        frame_map(root, tracks, base, tick, Seq::empty()) == Some(
            seq![
                NodeRecord {
                    name: root.name@,
                    transform: Pose::Compose(
                        Box::new(base),
                        Box::new(Pose::Fixed(root.transform)),
                    ),
                    meshes: root.meshes@,
                },
            ],
        ),
        bone_slot_after(
            frame_map(root, tracks, base, tick, Seq::empty())->Some_0,
            table,
            table[root.name@].bone_index as int,
            before,
        ) == Pose::Compose(
            Box::new(Pose::Compose(Box::new(base), Box::new(Pose::Fixed(root.transform)))),
            Box::new(Pose::Fixed(table[root.name@].offset_transform)),
        ),
{
    let empty = Seq::<NodeRecord>::empty();
    lemma_untracked_node_rests(root, tracks, base, tick);
    lemma_walk_writes_new_leaf(root, tracks, base, tick, FULL_WEIGHT, empty);
    let record = NodeRecord {
        name: root.name@,
        transform: Pose::Compose(Box::new(base), Box::new(Pose::Fixed(root.transform))),
        meshes: root.meshes@,
    };
    assert(empty.push(record) =~= seq![record]);
    lemma_bone_slot_of_last_record(
        empty,
        record,
        table,
        table[root.name@].bone_index as int,
        before,
    );
}

/// Every transition that is left after a frame has a positive weight.
pub proof fn lemma_survivors_are_positive(transitions: Seq<AnimationTransition>, delta_time: i64)
    ensures
        forall|i: int|
            0 <= i < surviving(transitions, delta_time).len() ==> (#[trigger] surviving(
                transitions,
                delta_time,
            )[i]).current_weight > 0,
    decreases transitions.len(),
{
    if transitions.len() > 0 {
        lemma_survivors_are_positive(transitions.drop_last(), delta_time);
    }
}

/// In a model of a root with one child, where a track was authored for the child
/// alone, the frame's node map holds the root in its pose at rest and then the child
/// in the root's pose composed with the child's sampled track, in that order of
/// composition; and the slot of each of the child's meshes holds the child's pose.
pub proof fn lemma_tracked_child_under_resting_root(
    root: NodeData,
    tracks: Seq<NodeAnimation>,
    base: Pose,
    tick: i64,
    mesh: int,
    before: Pose,
)
    requires
        root.children@.len() == 1,
        root.children@[0].children@.len() == 0,
        root.children@[0].name@ != root.name@,
        !has_track(tracks, root.name@),
        has_track(tracks, root.children@[0].name@),
        sample_track(tracks[track_of(tracks, root.children@[0].name@)], tick) is Some,
        exists|j: int|
            0 <= j < root.children@[0].meshes@.len() && #[trigger] root.children@[0].meshes@[j]
                == mesh,
    ensures
        ({
            let child = root.children@[0];
            let sample = sample_track(tracks[track_of(tracks, child.name@)], tick)->Some_0;
            let root_pose = Pose::Compose(Box::new(base), Box::new(Pose::Fixed(root.transform)));
            let child_pose = Pose::Compose(Box::new(root_pose), Box::new(Pose::Sampled(sample)));
            &&& frame_map(root, tracks, base, tick, Seq::empty()) == Some(
                seq![
                    NodeRecord { name: root.name@, transform: root_pose, meshes: root.meshes@ },
                    NodeRecord { name: child.name@, transform: child_pose, meshes: child.meshes@ },
                ],
            )
            &&& node_slot_after(
                frame_map(root, tracks, base, tick, Seq::empty())->Some_0,
                mesh,
                before,
            ) == child_pose
        }),
{
    let child = root.children@[0];
    let sample = sample_track(tracks[track_of(tracks, child.name@)], tick)->Some_0;
    let root_pose = Pose::Compose(Box::new(base), Box::new(Pose::Fixed(root.transform)));
    let child_pose = Pose::Compose(Box::new(root_pose), Box::new(Pose::Sampled(sample)));
    let root_record = NodeRecord { name: root.name@, transform: root_pose, meshes: root.meshes@ };
    let child_record = NodeRecord {
        name: child.name@,
        transform: child_pose,
        meshes: child.meshes@,
    };
    let empty = Seq::<NodeRecord>::empty();
    lemma_untracked_node_rests(root, tracks, base, tick);
    let first = written(empty, root.name@, root.meshes@, root_pose, FULL_WEIGHT);
    assert(first =~= seq![root_record]);
    assert(!has_name(first, child.name@)) by {
        if has_name(first, child.name@) {
            let i = choose|i: int| 0 <= i < first.len() && #[trigger] first[i].name == child.name@;
            assert(first[i] == root_record);
        }
    }
    assert(global_pose(child, tracks, root_pose, tick) == Some(child_pose));
    lemma_walk_writes_new_leaf(child, tracks, root_pose, tick, FULL_WEIGHT, first);
    let both = first.push(child_record);
    assert(both =~= seq![root_record, child_record]);
    assert(walk_children(root, 1, tracks, root_pose, tick, FULL_WEIGHT, both) == Some(both));
    assert(walk_children(root, 0, tracks, root_pose, tick, FULL_WEIGHT, first) == Some(both));
    assert(walk(root, tracks, base, tick, FULL_WEIGHT, empty) == Some(both));
    assert(both.last() == child_record);
    let j = choose|j: int|
        0 <= j < child.meshes@.len() && #[trigger] child.meshes@[j] == mesh;
    assert(child_record.meshes[j] == mesh);
    assert(uses_mesh(child_record, mesh));
}

/// The names of the nodes under `node`, parents before children.
pub open spec fn subtree_names(node: NodeData) -> Seq<Seq<char>>
    decreases node, 1nat, 0nat,
{
    seq![node.name@] + children_names(node, 0)
}

/// The names of the nodes under the children of `node` from position `from` on.
pub open spec fn children_names(node: NodeData, from: nat) -> Seq<Seq<char>>
    decreases node, 0nat, node.children@.len() - from,
{
    if from >= node.children@.len() {
        Seq::empty()
    } else {
        subtree_names(node.children@[from as int]) + children_names(node, from + 1)
    }
}

/// The hierarchy under `node` in its pose at `tick`: one record for each node,
/// parents before children, with the node's global pose, which is the global pose of
/// its parent composed with its own local pose. Nothing where some track cannot be
/// sampled.
pub open spec fn posed_subtree(
    node: NodeData,
    tracks: Seq<NodeAnimation>,
    parent: Pose,
    tick: i64,
) -> Option<Seq<NodeRecord>>
    decreases node, 1nat, 0nat,
{
    match global_pose(node, tracks, parent, tick) {
        Some(global) => match posed_children(node, 0, tracks, global, tick) {
            Some(below) => Some(
                seq![NodeRecord { name: node.name@, transform: global, meshes: node.meshes@ }]
                    + below,
            ),
            None => None,
        },
        None => None,
    }
}

/// The hierarchies under the children of `node` from position `from` on, posed at
/// `tick` under the global pose `parent` of `node`.
pub open spec fn posed_children(
    node: NodeData,
    from: nat,
    tracks: Seq<NodeAnimation>,
    parent: Pose,
    tick: i64,
) -> Option<Seq<NodeRecord>>
    decreases node, 0nat, node.children@.len() - from,
{
    if from >= node.children@.len() {
        Some(Seq::empty())
    } else {
        match posed_subtree(node.children@[from as int], tracks, parent, tick) {
            Some(first) => match posed_children(node, from + 1, tracks, parent, tick) {
                Some(others) => Some(first + others),
                None => None,
            },
            None => None,
        }
    }
}

/// The names of the given records, in their order.
pub open spec fn record_names(records: Seq<NodeRecord>) -> Seq<Seq<char>> {
    Seq::new(records.len(), |i: int| records[i].name)
}

/// None of `names` has an entry in `map`.
pub open spec fn fresh(map: Seq<NodeRecord>, names: Seq<Seq<char>>) -> bool {
    forall|i: int| 0 <= i < names.len() ==> !has_name(map, #[trigger] names[i])
}

/// A posed hierarchy has one record for each of its nodes, under the node's name.
pub proof fn lemma_posed_subtree_names(
    node: NodeData,
    tracks: Seq<NodeAnimation>,
    parent: Pose,
    tick: i64,
)
    ensures
        posed_subtree(node, tracks, parent, tick) matches Some(records) ==> record_names(records)
            == subtree_names(node),
    decreases node, 1nat, 0nat,
{
    match global_pose(node, tracks, parent, tick) {
        Some(global) => {
            lemma_posed_children_names(node, 0, tracks, global, tick);
            match posed_children(node, 0, tracks, global, tick) {
                Some(below) => {
                    let head = seq![
                        NodeRecord { name: node.name@, transform: global, meshes: node.meshes@ },
                    ];
                    assert(record_names(head + below) =~= seq![node.name@] + record_names(below));
                },
                None => {},
            }
        },
        None => {},
    }
}

/// [`lemma_posed_subtree_names`], for the children of `node` from position `from` on.
pub proof fn lemma_posed_children_names(
    node: NodeData,
    from: nat,
    tracks: Seq<NodeAnimation>,
    parent: Pose,
    tick: i64,
)
    ensures
        posed_children(node, from, tracks, parent, tick) matches Some(records) ==> record_names(
            records,
        ) == children_names(node, from),
    decreases node, 0nat, node.children@.len() - from,
{
    if from < node.children@.len() {
        let child = node.children@[from as int];
        lemma_posed_subtree_names(child, tracks, parent, tick);
        lemma_posed_children_names(node, from + 1, tracks, parent, tick);
        match posed_subtree(child, tracks, parent, tick) {
            Some(first) => match posed_children(node, from + 1, tracks, parent, tick) {
                Some(others) => {
                    assert(record_names(first + others) =~= record_names(first) + record_names(
                        others,
                    ));
                },
                None => {},
            },
            None => {},
        }
    } else {
        assert(record_names(Seq::<NodeRecord>::empty()) =~= Seq::<Seq<char>>::empty());
    }
}

/// Where no two nodes of a hierarchy share a name and the map holds none of the names
/// yet, the walk adds the posed hierarchy to the map as it is: every node gets an
/// entry of its own with its global pose, whatever the weight.
pub proof fn lemma_walk_adds_posed_subtree(
    node: NodeData,
    tracks: Seq<NodeAnimation>,
    parent: Pose,
    tick: i64,
    weight: i64,
    map: Seq<NodeRecord>,
)
    requires
        subtree_names(node).no_duplicates(),
        fresh(map, subtree_names(node)),
    ensures
        walk(node, tracks, parent, tick, weight, map) == (match posed_subtree(
            node,
            tracks,
            parent,
            tick,
        ) {
            Some(records) => Some(map + records),
            None => None,
        }),
    decreases node, 1nat, 0nat,
{
    let names = subtree_names(node);
    let below_names = children_names(node, 0);
    assert(names[0] == node.name@);
    assert(!has_name(map, node.name@));
    match global_pose(node, tracks, parent, tick) {
        Some(global) => {
            let record = NodeRecord { name: node.name@, transform: global, meshes: node.meshes@ };
            let first = map.push(record);
            assert(written(map, node.name@, node.meshes@, global, weight) == first);
            assert forall|i: int, j: int|
                0 <= i < below_names.len() && 0 <= j < below_names.len() && i != j implies
                below_names[i] != below_names[j] by {
                assert(names[i + 1] == below_names[i]);
                assert(names[j + 1] == below_names[j]);
            }
            assert forall|k: int| 0 <= k < below_names.len() implies !has_name(
                first,
                #[trigger] below_names[k],
            ) by {
                assert(names[k + 1] == below_names[k]);
                if has_name(first, below_names[k]) {
                    let at = choose|at: int|
                        0 <= at < first.len() && #[trigger] first[at].name == below_names[k];
                    if at < map.len() {
                        assert(map[at].name == names[k + 1]);
                        assert(has_name(map, names[k + 1]));
                    } else {
                        assert(names[0] == names[k + 1]);
                    }
                }
            }
            lemma_walk_children_add_posed(node, 0, tracks, global, tick, weight, first);
            match posed_children(node, 0, tracks, global, tick) {
                Some(below) => {
                    assert(first + below =~= map + (seq![record] + below));
                },
                None => {},
            }
        },
        None => {},
    }
}

/// [`lemma_walk_adds_posed_subtree`], for the children of `node` from position `from`
/// on.
pub proof fn lemma_walk_children_add_posed(
    node: NodeData,
    from: nat,
    tracks: Seq<NodeAnimation>,
    parent: Pose,
    tick: i64,
    weight: i64,
    map: Seq<NodeRecord>,
)
    requires
        children_names(node, from).no_duplicates(),
        fresh(map, children_names(node, from)),
    ensures
        walk_children(node, from, tracks, parent, tick, weight, map) == (match posed_children(
            node,
            from,
            tracks,
            parent,
            tick,
        ) {
            Some(records) => Some(map + records),
            None => None,
        }),
    decreases node, 0nat, node.children@.len() - from,
{
    if from < node.children@.len() {
        let child = node.children@[from as int];
        let names = children_names(node, from);
        let child_names = subtree_names(child);
        let other_names = children_names(node, from + 1);
        assert(names == child_names + other_names);
        assert forall|i: int, j: int|
            0 <= i < child_names.len() && 0 <= j < child_names.len() && i != j implies
            child_names[i] != child_names[j] by {
            assert(names[i] == child_names[i]);
            assert(names[j] == child_names[j]);
        }
        assert forall|k: int| 0 <= k < child_names.len() implies !has_name(
            map,
            #[trigger] child_names[k],
        ) by {
            assert(names[k] == child_names[k]);
        }
        lemma_walk_adds_posed_subtree(child, tracks, parent, tick, weight, map);
        lemma_posed_subtree_names(child, tracks, parent, tick);
        match posed_subtree(child, tracks, parent, tick) {
            Some(first) => {
                let after = map + first;
                assert(record_names(first) == child_names);
                assert forall|i: int, j: int|
                    0 <= i < other_names.len() && 0 <= j < other_names.len() && i
                        != j implies other_names[i] != other_names[j] by {
                    assert(names[child_names.len() + i] == other_names[i]);
                    assert(names[child_names.len() + j] == other_names[j]);
                }
                assert forall|k: int| 0 <= k < other_names.len() implies !has_name(
                    after,
                    #[trigger] other_names[k],
                ) by {
                    assert(names[child_names.len() + k] == other_names[k]);
                    if has_name(after, other_names[k]) {
                        let at = choose|at: int|
                            0 <= at < after.len() && #[trigger] after[at].name == other_names[k];
                        if at < map.len() {
                            assert(map[at].name == names[child_names.len() + k]);
                            assert(has_name(map, names[child_names.len() + k]));
                        } else {
                            let inner = at - map.len();
                            assert(after[at] == first[inner]);
                            assert(record_names(first)[inner] == first[inner].name);
                            assert(names[inner] == child_names[inner]);
                            assert(names[inner] == names[child_names.len() + k]);
                        }
                    }
                }
                lemma_walk_children_add_posed(node, from + 1, tracks, parent, tick, weight, after);
                match posed_children(node, from + 1, tracks, parent, tick) {
                    Some(others) => {
                        assert(after + others =~= map + (first + others));
                    },
                    None => {},
                }
            },
            None => {},
        }
    } else {
        assert(map + Seq::<NodeRecord>::empty() =~= map);
    }
}

/// In a model whose nodes all have names of their own, the node map of a frame
/// without transitions is the posed hierarchy under the base pose.
pub proof fn lemma_frame_is_posed_hierarchy(
    root: NodeData,
    tracks: Seq<NodeAnimation>,
    base: Pose,
    tick: i64,
)
    requires
        subtree_names(root).no_duplicates(),
    ensures
        frame_map(root, tracks, base, tick, Seq::empty()) == posed_subtree(
            root,
            tracks,
            base,
            tick,
        ),
{
    let empty = Seq::<NodeRecord>::empty();
    assert forall|i: int| 0 <= i < subtree_names(root).len() implies !has_name(
        empty,
        #[trigger] subtree_names(root)[i],
    ) by {}
    lemma_walk_adds_posed_subtree(root, tracks, base, tick, FULL_WEIGHT, empty);
    match posed_subtree(root, tracks, base, tick) {
        Some(records) => {
            assert(empty + records =~= records);
        },
        None => {},
    }
}

/// `map` with each of `records` blended at `weight` into the entry that stands as far
/// behind position `at` as the record stands in `records`.
pub open spec fn blended_at(
    map: Seq<NodeRecord>,
    at: int,
    records: Seq<NodeRecord>,
    weight: i64,
) -> Seq<NodeRecord> {
    Seq::new(
        map.len(),
        |i: int|
            if at <= i < at + records.len() {
                NodeRecord {
                    name: map[i].name,
                    transform: Pose::Blend(
                        Box::new(map[i].transform),
                        Box::new(records[i - at].transform),
                        weight,
                    ),
                    meshes: map[i].meshes,
                }
            } else {
                map[i]
            },
    )
}

/// The entries of `map` from position `at` on belong to `names`, in their order.
pub open spec fn names_at(map: Seq<NodeRecord>, at: int, names: Seq<Seq<char>>) -> bool {
    &&& 0 <= at
    &&& at + names.len() <= map.len()
    &&& forall|k: int| 0 <= k < names.len() ==> (#[trigger] map[at + k]).name == names[k]
}

/// Where the map holds the nodes of a hierarchy in their order from position `at` on,
/// each under a name of its own, the walk blends the posed hierarchy into these
/// entries one by one, at `weight`, and leaves the rest of the map as it is.
pub proof fn lemma_walk_blends_posed_subtree(
    node: NodeData,
    tracks: Seq<NodeAnimation>,
    parent: Pose,
    tick: i64,
    weight: i64,
    map: Seq<NodeRecord>,
    at: int,
)
    requires
        distinct_names(map),
        names_at(map, at, subtree_names(node)),
    ensures
        walk(node, tracks, parent, tick, weight, map) == (match posed_subtree(
            node,
            tracks,
            parent,
            tick,
        ) {
            Some(records) => Some(blended_at(map, at, records, weight)),
            None => None,
        }),
    decreases node, 1nat, 0nat,
{
    let names = subtree_names(node);
    let below_names = children_names(node, 0);
    assert(names[0] == node.name@);
    assert(map[at + 0].name == names[0]);
    assert(has_name(map, node.name@));
    let slot = slot_of(map, node.name@);
    assert(slot == at) by {
        if slot < at {
            assert(map[slot].name != map[at].name);
        } else if at < slot {
            assert(map[at].name != map[slot].name);
        }
    }
    match global_pose(node, tracks, parent, tick) {
        Some(global) => {
            let record = NodeRecord { name: node.name@, transform: global, meshes: node.meshes@ };
            let first = written(map, node.name@, node.meshes@, global, weight);
            assert(first =~= blended_at(map, at, seq![record], weight));
            assert forall|i: int, j: int| 0 <= i < j < first.len() implies
                (#[trigger] first[i]).name != (#[trigger] first[j]).name by {
                assert(first[i].name == map[i].name);
                assert(first[j].name == map[j].name);
            }
            assert forall|k: int| 0 <= k < below_names.len() implies (#[trigger] first[at + 1
                + k]).name == below_names[k] by {
                assert(names[k + 1] == below_names[k]);
                assert(map[at + (k + 1)].name == names[k + 1]);
            }
            lemma_walk_children_blend_posed(node, 0, tracks, global, tick, weight, first, at + 1);
            lemma_posed_children_names(node, 0, tracks, global, tick);
            match posed_children(node, 0, tracks, global, tick) {
                Some(below) => {
                    assert(record_names(below).len() == below.len());
                    assert(blended_at(first, at + 1, below, weight) =~= blended_at(
                        map,
                        at,
                        seq![record] + below,
                        weight,
                    ));
                },
                None => {},
            }
        },
        None => {},
    }
}

/// [`lemma_walk_blends_posed_subtree`], for the children of `node` from position
/// `from` on.
pub proof fn lemma_walk_children_blend_posed(
    node: NodeData,
    from: nat,
    tracks: Seq<NodeAnimation>,
    parent: Pose,
    tick: i64,
    weight: i64,
    map: Seq<NodeRecord>,
    at: int,
)
    requires
        distinct_names(map),
        names_at(map, at, children_names(node, from)),
    ensures
        walk_children(node, from, tracks, parent, tick, weight, map) == (match posed_children(
            node,
            from,
            tracks,
            parent,
            tick,
        ) {
            Some(records) => Some(blended_at(map, at, records, weight)),
            None => None,
        }),
    decreases node, 0nat, node.children@.len() - from,
{
    if from < node.children@.len() {
        let child = node.children@[from as int];
        let names = children_names(node, from);
        let child_names = subtree_names(child);
        let other_names = children_names(node, from + 1);
        assert(names == child_names + other_names);
        assert forall|k: int| 0 <= k < child_names.len() implies (#[trigger] map[at + k]).name
            == child_names[k] by {
            assert(names[k] == child_names[k]);
        }
        lemma_walk_blends_posed_subtree(child, tracks, parent, tick, weight, map, at);
        lemma_posed_subtree_names(child, tracks, parent, tick);
        match posed_subtree(child, tracks, parent, tick) {
            Some(first) => {
                assert(record_names(first).len() == first.len());
                let after = blended_at(map, at, first, weight);
                let next = at + first.len();
                assert forall|i: int, j: int| 0 <= i < j < after.len() implies (
                #[trigger] after[i]).name != (#[trigger] after[j]).name by {
                    assert(after[i].name == map[i].name);
                    assert(after[j].name == map[j].name);
                }
                assert forall|k: int| 0 <= k < other_names.len() implies (#[trigger] after[next
                    + k]).name == other_names[k] by {
                    assert(names[child_names.len() + k] == other_names[k]);
                    assert(map[at + (child_names.len() + k)].name == names[child_names.len() + k]);
                }
                lemma_walk_children_blend_posed(
                    node,
                    from + 1,
                    tracks,
                    parent,
                    tick,
                    weight,
                    after,
                    next,
                );
                lemma_posed_children_names(node, from + 1, tracks, parent, tick);
                match posed_children(node, from + 1, tracks, parent, tick) {
                    Some(others) => {
                        assert(record_names(others).len() == others.len());
                        assert(blended_at(after, next, others, weight) =~= blended_at(
                            map,
                            at,
                            first + others,
                            weight,
                        ));
                    },
                    None => {},
                }
            },
            None => {},
        }
    } else {
        assert(blended_at(map, at, Seq::<NodeRecord>::empty(), weight) =~= map);
    }
}

/// In a model whose nodes all have names of their own, the node map of a frame with
/// one transition holds, for each node, the node's pose in the current animation
/// with its pose in the transition blended in at the transition's weight.
pub proof fn lemma_crossfade_blends_node_by_node(
    root: NodeData,
    tracks: Seq<NodeAnimation>,
    base: Pose,
    tick: i64,
    transition: AnimationTransition,
)
    requires
        subtree_names(root).no_duplicates(),
    ensures
        frame_map(root, tracks, base, tick, seq![transition]) == (match (
            posed_subtree(root, tracks, base, tick),
            posed_subtree(root, tracks, base, transition.animation.current_tick),
        ) {
            (Some(current), Some(fading)) => Some(
                blended_at(current, 0, fading, transition.current_weight),
            ),
            _ => None,
        }),
{
    let one = seq![transition];
    lemma_frame_is_posed_hierarchy(root, tracks, base, tick);
    assert(one.drop_last() =~= Seq::<AnimationTransition>::empty());
    assert(one.last() == transition);
    match posed_subtree(root, tracks, base, tick) {
        Some(current) => {
            lemma_posed_subtree_names(root, tracks, base, tick);
            let names = subtree_names(root);
            assert(record_names(current).len() == current.len());
            assert forall|i: int, j: int| 0 <= i < j < current.len() implies (
            #[trigger] current[i]).name != (#[trigger] current[j]).name by {
                assert(record_names(current)[i] == current[i].name);
                assert(record_names(current)[j] == current[j].name);
            }
            assert forall|k: int| 0 <= k < names.len() implies (#[trigger] current[0 + k]).name
                == names[k] by {
                assert(record_names(current)[k] == current[k].name);
            }
            lemma_walk_blends_posed_subtree(
                root,
                tracks,
                base,
                transition.animation.current_tick,
                transition.current_weight,
                current,
                0,
            );
        },
        None => {},
    }
}

/// A looping entry over a clip of some length that is played forwards, from a time
/// and with an offset that are not negative, always has a tick to be sampled at, and
/// the tick lies in the clip, its end excluded.
pub proof fn lemma_looping_entry_stays_in_clip(
    entry: WeightedAnimation,
    ticks_per_second: i64,
    frame_time: i64,
)
    requires
        entry.optional_start <= 0,
        entry.start_tick < entry.end_tick,
        entry.offset >= 0,
        ticks_per_second >= 0,
        frame_time >= 0,
    ensures
        entry.target_tick(ticks_per_second, frame_time) matches Some(tick) && entry.start_tick
            <= tick < entry.end_tick,
{
    assert(frame_time * ticks_per_second >= 0) by (nonlinear_arith)
        requires
            frame_time >= 0,
            ticks_per_second >= 0,
    ;
    let played = frame_time * ticks_per_second + entry.offset;
    let tick_range = entry.end_tick - entry.start_tick;
    assert(0 <= played % tick_range < tick_range);
}

/// An entry with a start time that is played forwards, from a time not before its
/// start and with an offset that is not negative, always has a tick to be sampled at,
/// and the tick lies in the clip; once the clip has been played through, the tick is
/// the end of the clip.
pub proof fn lemma_started_entry_holds_its_end(
    entry: WeightedAnimation,
    ticks_per_second: i64,
    frame_time: i64,
)
    requires
        entry.optional_start > 0,
        entry.start_tick <= entry.end_tick,
        entry.offset >= 0,
        ticks_per_second >= 0,
        frame_time >= entry.optional_start,
    ensures
        entry.target_tick(ticks_per_second, frame_time) matches Some(tick) && entry.start_tick
            <= tick <= entry.end_tick,
        (frame_time - entry.optional_start) * ticks_per_second + entry.offset >= entry.end_tick
            - entry.start_tick ==> entry.target_tick(ticks_per_second, frame_time) == Some(
            entry.end_tick,
        ),
{
    assert((frame_time - entry.optional_start) * ticks_per_second >= 0) by (nonlinear_arith)
        requires
            frame_time - entry.optional_start >= 0,
            ticks_per_second >= 0,
    ;
}

/// The slot of a bone holds the pose of the last record that belongs to the bone,
/// composed with the bone's inverse bind pose, whatever was written before it.
pub proof fn lemma_bone_slot_of_driving_record(
    records: Seq<NodeRecord>,
    table: Map<Seq<char>, BoneRecord>,
    i: int,
    slot: int,
    before: Pose,
)
    requires
        0 <= i < records.len(),
        drives_bone(records[i], table, slot),
        forall|j: int| i < j < records.len() ==> !drives_bone(#[trigger] records[j], table, slot),
    ensures
        bone_slot_after(records, table, slot, before) == Pose::Compose(
            Box::new(records[i].transform),
            Box::new(Pose::Fixed(table[records[i].name].offset_transform)),
        ),
    decreases records.len(),
{
    if i < records.len() - 1 {
        let earlier = records.drop_last();
        assert(!drives_bone(records[records.len() - 1], table, slot));
        assert(earlier[i] == records[i]);
        assert forall|j: int| i < j < earlier.len() implies !drives_bone(
            #[trigger] earlier[j],
            table,
            slot,
        ) by {
            assert(earlier[j] == records[j]);
        }
        lemma_bone_slot_of_driving_record(earlier, table, i, slot, before);
    }
}

/// The slot of a mesh holds the pose of the last record that refers to the mesh,
/// whatever was written before it.
pub proof fn lemma_node_slot_of_last_user(
    records: Seq<NodeRecord>,
    i: int,
    slot: int,
    before: Pose,
)
    requires
        0 <= i < records.len(),
        uses_mesh(records[i], slot),
        forall|j: int| i < j < records.len() ==> !uses_mesh(#[trigger] records[j], slot),
    ensures
        node_slot_after(records, slot, before) == records[i].transform,
    decreases records.len(),
{
    if i < records.len() - 1 {
        let earlier = records.drop_last();
        assert(!uses_mesh(records[records.len() - 1], slot));
        assert(earlier[i] == records[i]);
        assert forall|j: int| i < j < earlier.len() implies !uses_mesh(
            #[trigger] earlier[j],
            slot,
        ) by {
            assert(earlier[j] == records[j]);
        }
        lemma_node_slot_of_last_user(earlier, i, slot, before);
    }
}

/// A slot that no record belongs to, or refers to, keeps what it held.
pub proof fn lemma_untouched_slots_keep_their_pose(
    records: Seq<NodeRecord>,
    table: Map<Seq<char>, BoneRecord>,
    slot: int,
    before: Pose,
)
    ensures
        (forall|j: int| 0 <= j < records.len() ==> !drives_bone(#[trigger] records[j], table, slot))
            ==> bone_slot_after(records, table, slot, before) == before,
        (forall|j: int| 0 <= j < records.len() ==> !uses_mesh(#[trigger] records[j], slot))
            ==> node_slot_after(records, slot, before) == before,
    decreases records.len(),
{
    if records.len() > 0 {
        let earlier = records.drop_last();
        lemma_untouched_slots_keep_their_pose(earlier, table, slot, before);
        if forall|j: int|
            0 <= j < records.len() ==> !drives_bone(#[trigger] records[j], table, slot) {
            assert(!drives_bone(records[records.len() - 1], table, slot));
            assert forall|j: int| 0 <= j < earlier.len() implies !drives_bone(
                #[trigger] earlier[j],
                table,
                slot,
            ) by {
                assert(earlier[j] == records[j]);
            }
        }
        if forall|j: int| 0 <= j < records.len() ==> !uses_mesh(#[trigger] records[j], slot) {
            assert(!uses_mesh(records[records.len() - 1], slot));
            assert forall|j: int| 0 <= j < earlier.len() implies !uses_mesh(
                #[trigger] earlier[j],
                slot,
            ) by {
                assert(earlier[j] == records[j]);
            }
        }
    }
}

/// `records` folded into `map` at `weight`: taken as they are where the map is empty,
/// blended into the entries of the map one by one where it is not.
pub open spec fn folded_in(map: Seq<NodeRecord>, records: Seq<NodeRecord>, weight: i64) -> Seq<
    NodeRecord,
> {
    if map.len() == 0 {
        records
    } else {
        blended_at(map, 0, records, weight)
    }
}

/// In a model whose nodes all have names of their own, every walk of the whole
/// hierarchy folds the posed hierarchy into the node map: the first walk of a frame
/// writes every node's pose as it is, whatever its weight, and every later walk
/// blends every node's pose into the node's entry at the weight of the walk. After
/// each walk the map holds the nodes of the hierarchy, parents before children.
pub proof fn lemma_walk_folds_posed_hierarchy(
    root: NodeData,
    tracks: Seq<NodeAnimation>,
    base: Pose,
    tick: i64,
    weight: i64,
    map: Seq<NodeRecord>,
)
    requires
        subtree_names(root).no_duplicates(),
        map.len() == 0 || record_names(map) == subtree_names(root),
    ensures
        walk(root, tracks, base, tick, weight, map) == (match posed_subtree(
            root,
            tracks,
            base,
            tick,
        ) {
            Some(records) => Some(folded_in(map, records, weight)),
            None => None,
        }),
        walk(root, tracks, base, tick, weight, map) matches Some(after) ==> record_names(after)
            == subtree_names(root),
{
    let names = subtree_names(root);
    lemma_posed_subtree_names(root, tracks, base, tick);
    if map.len() == 0 {
        assert forall|i: int| 0 <= i < names.len() implies !has_name(map, #[trigger] names[i]) by {}
        lemma_walk_adds_posed_subtree(root, tracks, base, tick, weight, map);
        match posed_subtree(root, tracks, base, tick) {
            Some(records) => {
                assert(map + records =~= records);
            },
            None => {},
        }
    } else {
        assert(record_names(map).len() == map.len());
        assert forall|i: int, j: int| 0 <= i < j < map.len() implies (#[trigger] map[i]).name != (
        #[trigger] map[j]).name by {
            assert(record_names(map)[i] == map[i].name);
            assert(record_names(map)[j] == map[j].name);
        }
        assert forall|k: int| 0 <= k < names.len() implies (#[trigger] map[0 + k]).name
            == names[k] by {
            assert(record_names(map)[k] == map[k].name);
        }
        lemma_walk_blends_posed_subtree(root, tracks, base, tick, weight, map, 0);
        match posed_subtree(root, tracks, base, tick) {
            Some(records) => {
                let after = blended_at(map, 0, records, weight);
                assert(record_names(after) =~= record_names(map));
            },
            None => {},
        }
    }
}

/// An entry that does not count, or that counts and has no tick to be sampled at,
/// adds nothing to the frame: the node map is that of the entries before it.
pub proof fn lemma_rejected_entry_adds_nothing(
    root: NodeData,
    tracks: Seq<NodeAnimation>,
    base: Pose,
    list: Seq<WeightedAnimation>,
    entry: WeightedAnimation,
    ticks_per_second: i64,
    frame_time: i64,
    map: Seq<NodeRecord>,
)
    requires
        entry.weight <= 0 || entry.target_tick(ticks_per_second, frame_time) is None,
    ensures
        blend_weighted(root, tracks, base, list.push(entry), ticks_per_second, frame_time, map)
            == blend_weighted(root, tracks, base, list, ticks_per_second, frame_time, map),
{
    assert(list.push(entry).drop_last() =~= list);
    assert(list.push(entry).last() == entry);
}

/// An entry that counts and has a tick to be sampled at is folded into the node map
/// of the entries before it, at its tick and weight.
pub proof fn lemma_valid_entry_is_folded_in(
    root: NodeData,
    tracks: Seq<NodeAnimation>,
    base: Pose,
    list: Seq<WeightedAnimation>,
    entry: WeightedAnimation,
    ticks_per_second: i64,
    frame_time: i64,
    map: Seq<NodeRecord>,
)
    requires
        entry.weight > 0,
        entry.target_tick(ticks_per_second, frame_time) is Some,
    ensures
        blend_weighted(root, tracks, base, list.push(entry), ticks_per_second, frame_time, map)
            == (match blend_weighted(
            root,
            tracks,
            base,
            list,
            ticks_per_second,
            frame_time,
            map,
        ) {
            Some(before) => walk(
                root,
                tracks,
                base,
                entry.target_tick(ticks_per_second, frame_time)->Some_0,
                entry.weight,
                before,
            ),
            None => None,
        }),
{
    assert(list.push(entry).drop_last() =~= list);
    assert(list.push(entry).last() == entry);
}

/// One frame of `delta_time` leaves the transitions that survive it, with their
/// playheads moved on: what [`crate::animator::Animator::update_animation`] leaves of
/// the transitions in one call.
pub proof fn lemma_one_frame(transitions: Seq<AnimationTransition>, delta_time: i64)
    ensures
        aged_through(transitions, seq![delta_time]) == stepped_all(
            surviving(transitions, delta_time),
            delta_time,
        ),
        total_time(seq![delta_time]) == delta_time,
{
    let one = seq![delta_time];
    assert(total_time(one.drop_last()) == 0) by {
        assert(one.drop_last() =~= Seq::<i64>::empty());
    }
    assert(one.drop_last() =~= Seq::<i64>::empty());
    assert(one.last() == delta_time);
    assert(aged_through(transitions, one.drop_last()) == transitions);
}

/// Frames after frames are the frames of both runs in a row, and take their times
/// together.
pub proof fn lemma_frames_in_a_row(
    transitions: Seq<AnimationTransition>,
    first: Seq<i64>,
    then: Seq<i64>,
)
    ensures
        aged_through(aged_through(transitions, first), then) == aged_through(
            transitions,
            first + then,
        ),
        total_time(first + then) == total_time(first) + total_time(then),
    decreases then.len(),
{
    if then.len() == 0 {
        assert(first + then =~= first);
    } else {
        lemma_frames_in_a_row(transitions, first, then.drop_last());
        assert((first + then).drop_last() =~= first + then.drop_last());
        assert((first + then).last() == then.last());
    }
}

/// Which transitions survive a frame is decided one by one: those of two lists in a
/// row are those of the first, then those of the second.
pub proof fn lemma_surviving_one_by_one(
    first: Seq<AnimationTransition>,
    second: Seq<AnimationTransition>,
    delta_time: i64,
)
    ensures
        surviving(first + second, delta_time) == surviving(first, delta_time) + surviving(
            second,
            delta_time,
        ),
    decreases second.len(),
{
    if second.len() == 0 {
        assert(first + second =~= first);
        assert(surviving(first, delta_time) + Seq::<AnimationTransition>::empty() =~= surviving(
            first,
            delta_time,
        ));
    } else {
        lemma_surviving_one_by_one(first, second.drop_last(), delta_time);
        assert((first + second).drop_last() =~= first + second.drop_last());
        assert((first + second).last() == second.last());
        let before = surviving(first, delta_time) + surviving(second.drop_last(), delta_time);
        let last = second.last().aged(delta_time);
        if last.current_weight > 0 {
            assert(before.push(last) =~= surviving(first, delta_time) + surviving(
                second.drop_last(),
                delta_time,
            ).push(last));
        }
    }
}

/// What is left of two lists of transitions after some frames is what is left of the
/// first, then what is left of the second: no transition bears on another's fade.
pub proof fn lemma_fades_are_independent(
    first: Seq<AnimationTransition>,
    second: Seq<AnimationTransition>,
    steps: Seq<i64>,
)
    ensures
        aged_through(first + second, steps) == aged_through(first, steps) + aged_through(
            second,
            steps,
        ),
    decreases steps.len(),
{
    if steps.len() > 0 {
        lemma_fades_are_independent(first, second, steps.drop_last());
        let a = aged_through(first, steps.drop_last());
        let b = aged_through(second, steps.drop_last());
        lemma_surviving_one_by_one(a, b, steps.last());
        let sa = surviving(a, steps.last());
        let sb = surviving(b, steps.last());
        assert(stepped_all(sa + sb, steps.last()) =~= stepped_all(sa, steps.last()) + stepped_all(
            sb,
            steps.last(),
        ));
    }
}

/// A crossfade is over when its time is: the transition that a fade of `duration`
/// microseconds puts behind `transitions` is gone once frames of that much time in
/// all have passed, whatever the other transitions do, and where there were no
/// others, none is left.
pub proof fn lemma_crossfade_is_over(
    transitions: Seq<AnimationTransition>,
    faded_out: PlayingAnimation,
    duration: u64,
    steps: Seq<i64>,
)
    requires
        duration > 0,
        forall|k: int| 0 <= k < steps.len() ==> #[trigger] steps[k] >= 0,
        total_time(steps) >= duration,
    ensures
        aged_through(
            transitions.push(
                AnimationTransition {
                    current_weight: FULL_WEIGHT,
                    weight_decline_per_sec: decline_for(duration),
                    animation: faded_out,
                },
            ),
            steps,
        ) == aged_through(transitions, steps),
        transitions.len() == 0 ==> aged_through(
            transitions.push(
                AnimationTransition {
                    current_weight: FULL_WEIGHT,
                    weight_decline_per_sec: decline_for(duration),
                    animation: faded_out,
                },
            ),
            steps,
        ).len() == 0,
{
    let pushed = AnimationTransition {
        current_weight: FULL_WEIGHT,
        weight_decline_per_sec: decline_for(duration),
        animation: faded_out,
    };
    let one = seq![pushed];
    assert(transitions.push(pushed) =~= transitions + one);
    lemma_fades_are_independent(transitions, one, steps);
    lemma_no_transition_outlives_its_fade(one, steps, duration);
    assert(aged_through(transitions, steps) + aged_through(one, steps) =~= aged_through(
        transitions,
        steps,
    ));
    if transitions.len() == 0 {
        lemma_aged_through_shrinks(transitions, steps);
    }
}

/// Frames add no transitions.
pub proof fn lemma_aged_through_shrinks(transitions: Seq<AnimationTransition>, steps: Seq<i64>)
    ensures
        aged_through(transitions, steps).len() <= transitions.len(),
    decreases steps.len(),
{
    if steps.len() > 0 {
        lemma_aged_through_shrinks(transitions, steps.drop_last());
        lemma_surviving_shrinks(aged_through(transitions, steps.drop_last()), steps.last());
    }
}

/// A frame adds no transitions.
pub proof fn lemma_surviving_shrinks(transitions: Seq<AnimationTransition>, delta_time: i64)
    ensures
        surviving(transitions, delta_time).len() <= transitions.len(),
    decreases transitions.len(),
{
    if transitions.len() > 0 {
        lemma_surviving_shrinks(transitions.drop_last(), delta_time);
    }
}

/// `path` leads from `node` down the hierarchy: each of its numbers is the position
/// of a child among the children of the node before.
pub open spec fn is_path(node: NodeData, path: Seq<int>) -> bool
    decreases path.len(),
{
    path.len() == 0 || (0 <= path[0] < node.children@.len() && is_path(
        node.children@[path[0]],
        path.drop_first(),
    ))
}

/// The node to which `path` leads from `node`.
pub open spec fn descendant(node: NodeData, path: Seq<int>) -> NodeData
    decreases path.len(),
{
    if path.len() == 0 {
        node
    } else {
        descendant(node.children@[path[0]], path.drop_first())
    }
}

/// The number of nodes that stand before the node to which `path` leads, among the
/// nodes under `node`, parents before children.
pub open spec fn position_of(node: NodeData, path: Seq<int>) -> int
    decreases path.len(),
{
    if path.len() == 0 {
        0
    } else {
        1 + (children_names(node, 0).len() - children_names(node, path[0] as nat).len())
            + position_of(node.children@[path[0]], path.drop_first())
    }
}

/// The global pose at `tick` of the node to which `path` leads from `node`: the
/// global pose of each node on the way composed with the local pose of the next.
pub open spec fn pose_along(
    node: NodeData,
    path: Seq<int>,
    tracks: Seq<NodeAnimation>,
    parent: Pose,
    tick: i64,
) -> Option<Pose>
    decreases path.len(),
{
    match global_pose(node, tracks, parent, tick) {
        Some(global) => if path.len() == 0 {
            Some(global)
        } else {
            pose_along(node.children@[path[0]], path.drop_first(), tracks, global, tick)
        },
        None => None,
    }
}

/// No track was authored for `node` or for any node on `path` from it.
pub open spec fn untracked_along(node: NodeData, path: Seq<int>, tracks: Seq<NodeAnimation>) -> bool
    decreases path.len(),
{
    !has_track(tracks, node.name@) && (path.len() == 0 || untracked_along(
        node.children@[path[0]],
        path.drop_first(),
        tracks,
    ))
}

/// The global pose at rest of the node to which `path` leads from `node`: the
/// transforms at rest of the nodes on the way, composed from `parent` downwards.
pub open spec fn rest_pose_along(node: NodeData, path: Seq<int>, parent: Pose) -> Pose
    decreases path.len(),
{
    let global = Pose::Compose(Box::new(parent), Box::new(Pose::Fixed(node.transform)));
    if path.len() == 0 {
        global
    } else {
        rest_pose_along(node.children@[path[0]], path.drop_first(), global)
    }
}

/// Among the posed children of a node, the records of each child stand together,
/// behind those of the children before it.
pub proof fn lemma_posed_child_records(
    node: NodeData,
    from: nat,
    k: int,
    tracks: Seq<NodeAnimation>,
    parent: Pose,
    tick: i64,
)
    requires
        from <= k < node.children@.len(),
        posed_children(node, from, tracks, parent, tick) is Some,
    ensures
        posed_subtree(node.children@[k], tracks, parent, tick) is Some,
        ({
            let records = posed_children(node, from, tracks, parent, tick)->Some_0;
            let of_child = posed_subtree(node.children@[k], tracks, parent, tick)->Some_0;
            let before = children_names(node, from).len() - children_names(node, k as nat).len();
            &&& 0 <= before
            &&& before + of_child.len() <= records.len()
            &&& forall|i: int|
                0 <= i < of_child.len() ==> records[before + i] == #[trigger] of_child[i]
        }),
    decreases k - from,
{
    let first = posed_subtree(node.children@[from as int], tracks, parent, tick)->Some_0;
    let others = posed_children(node, from + 1, tracks, parent, tick)->Some_0;
    lemma_posed_subtree_names(node.children@[from as int], tracks, parent, tick);
    assert(record_names(first).len() == first.len());
    if k > from {
        lemma_posed_child_records(node, from + 1, k, tracks, parent, tick);
        let of_child = posed_subtree(node.children@[k], tracks, parent, tick)->Some_0;
        let inner = children_names(node, from + 1).len() - children_names(node, k as nat).len();
        assert forall|i: int| 0 <= i < of_child.len() implies (first + others)[first.len() + inner
            + i] == #[trigger] of_child[i] by {
            assert((first + others)[first.len() + inner + i] == others[inner + i]);
        }
    }
}

/// In a posed hierarchy every node has its record at its position, with its global
/// pose: the global pose of its parent composed with its own local pose.
pub proof fn lemma_posed_record_of_descendant(
    node: NodeData,
    path: Seq<int>,
    tracks: Seq<NodeAnimation>,
    parent: Pose,
    tick: i64,
)
    requires
        is_path(node, path),
        posed_subtree(node, tracks, parent, tick) is Some,
    ensures
        pose_along(node, path, tracks, parent, tick) is Some,
        ({
            let records = posed_subtree(node, tracks, parent, tick)->Some_0;
            let at = position_of(node, path);
            &&& 0 <= at < records.len()
            &&& records[at] == NodeRecord {
                name: descendant(node, path).name@,
                transform: pose_along(node, path, tracks, parent, tick)->Some_0,
                meshes: descendant(node, path).meshes@,
            }
        }),
    decreases path.len(),
{
    let global = global_pose(node, tracks, parent, tick)->Some_0;
    let below = posed_children(node, 0, tracks, global, tick)->Some_0;
    let head = seq![NodeRecord { name: node.name@, transform: global, meshes: node.meshes@ }];
    if path.len() > 0 {
        let k = path[0];
        let child = node.children@[k];
        lemma_posed_child_records(node, 0, k, tracks, global, tick);
        lemma_posed_record_of_descendant(child, path.drop_first(), tracks, global, tick);
        let of_child = posed_subtree(child, tracks, global, tick)->Some_0;
        let before = children_names(node, 0).len() - children_names(node, k as nat).len();
        let inner = position_of(child, path.drop_first());
        assert(below[before + inner] == of_child[inner]);
        assert((head + below)[1 + before + inner] == below[before + inner]);
    } else {
        assert((head + below)[0] == head[0]);
    }
}

/// A node stands in its pose at rest where no track was authored for it or for any
/// node above it.
pub proof fn lemma_untracked_path_rests(
    node: NodeData,
    path: Seq<int>,
    tracks: Seq<NodeAnimation>,
    parent: Pose,
    tick: i64,
)
    requires
        is_path(node, path),
        untracked_along(node, path, tracks),
    ensures
        pose_along(node, path, tracks, parent, tick) == Some(rest_pose_along(node, path, parent)),
    decreases path.len(),
{
    lemma_untracked_node_rests(node, tracks, parent, tick);
    if path.len() > 0 {
        let global = Pose::Compose(Box::new(parent), Box::new(Pose::Fixed(node.transform)));
        lemma_untracked_path_rests(
            node.children@[path[0]],
            path.drop_first(),
            tracks,
            global,
            tick,
        );
    }
}

/// In a model whose nodes all have names of their own, the node map of a frame
/// without transitions holds every node at its position with its global pose, and a
/// node for which no track was authored, nor for any node above it, with its pose at
/// rest under the base pose, whatever tracks move the other nodes.
pub proof fn lemma_frame_poses_every_node(
    root: NodeData,
    path: Seq<int>,
    tracks: Seq<NodeAnimation>,
    base: Pose,
    tick: i64,
)
    requires
        subtree_names(root).no_duplicates(),
        is_path(root, path),
        frame_map(root, tracks, base, tick, Seq::empty()) is Some,
    ensures
        ({
            let records = frame_map(root, tracks, base, tick, Seq::empty())->Some_0;
            let at = position_of(root, path);
            &&& distinct_names(records)
            &&& 0 <= at < records.len()
            &&& pose_along(root, path, tracks, base, tick) is Some
            &&& records[at] == NodeRecord {
                name: descendant(root, path).name@,
                transform: pose_along(root, path, tracks, base, tick)->Some_0,
                meshes: descendant(root, path).meshes@,
            }
            &&& untracked_along(root, path, tracks) ==> records[at].transform == rest_pose_along(
                root,
                path,
                base,
            )
        }),
{
    lemma_frame_is_posed_hierarchy(root, tracks, base, tick);
    lemma_posed_record_of_descendant(root, path, tracks, base, tick);
    lemma_posed_subtree_names(root, tracks, base, tick);
    let records = posed_subtree(root, tracks, base, tick)->Some_0;
    assert(record_names(records).len() == records.len());
    assert forall|i: int, j: int| 0 <= i < j < records.len() implies (#[trigger] records[i]).name
        != (#[trigger] records[j]).name by {
        assert(record_names(records)[i] == records[i].name);
        assert(record_names(records)[j] == records[j].name);
    }
    if untracked_along(root, path, tracks) {
        lemma_untracked_path_rests(root, path, tracks, base, tick);
    }
}

/// Where every node has a name of its own and no two bones share a slot, the slot of
/// a bone holds the pose of the node of the bone's name, composed with the bone's
/// inverse bind pose.
pub proof fn lemma_bone_slot_of_named_record(
    records: Seq<NodeRecord>,
    table: Map<Seq<char>, BoneRecord>,
    i: int,
    before: Pose,
)
    requires
        distinct_names(records),
        0 <= i < records.len(),
        table.contains_key(records[i].name),
        forall|a: Seq<char>, b: Seq<char>|
            table.contains_key(a) && table.contains_key(b) && table[a].bone_index
                == table[b].bone_index ==> a == b,
    ensures
        bone_slot_after(records, table, table[records[i].name].bone_index as int, before)
            == Pose::Compose(
            Box::new(records[i].transform),
            Box::new(Pose::Fixed(table[records[i].name].offset_transform)),
        ),
{
    let slot = table[records[i].name].bone_index as int;
    assert forall|j: int| i < j < records.len() implies !drives_bone(
        #[trigger] records[j],
        table,
        slot,
    ) by {
        assert(records[i].name != records[j].name);
    }
    lemma_bone_slot_of_driving_record(records, table, i, slot, before);
}

} // verus!
