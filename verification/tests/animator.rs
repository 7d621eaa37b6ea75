use spark_gap::animator::{
    calculate_transform_maps, AnimationClip, AnimationRepeat, AnimationTransition, Animator,
    PlayingAnimation, WeightedAnimation, BONE_CAPACITY, NODE_CAPACITY,
};
use spark_gap::error::Error;
use spark_gap::model_animation::{BoneData, BoneTable, ModelAnimation, NodeData};
use spark_gap::node_animation::{KeyPosition, KeyRotation, KeyScale, NodeAnimation};
use spark_gap::node_map::{NodeMap, NodeTransform};
use spark_gap::transform::{
    Factor, Pose, Quaternion, RotationSample, TrackSample, Transform, Vector3, VectorSample,
    FULL_WEIGHT, ONE,
};

const TEN_PER_SECOND: i64 = 10_000;

fn moved(x: i64) -> Transform {
    Transform::new(
        Vector3::new(x * ONE, 0, 0),
        Quaternion::new(0, 0, 0, ONE),
        Vector3::new(ONE, ONE, ONE),
    )
}

fn compose(a: Pose, b: Pose) -> Pose {
    a.mul_transform(b)
}

fn blend(a: Pose, b: Pose, w: i64) -> Pose {
    a.mul_transform_weighted(b, w)
}

/// A rotation-only track for `name`: one position key, one scale key, two rotation
/// keys at ticks 0 and 10.
fn rotation_track(name: &str) -> NodeAnimation {
    NodeAnimation::new(
        name,
        vec![KeyPosition { position: Vector3::new(0, 0, 0), time_stamp: 0 }],
        vec![
            KeyRotation { orientation: Quaternion::new(0, 0, 0, ONE), time_stamp: 0 },
            KeyRotation { orientation: Quaternion::new(0, ONE, 0, 0), time_stamp: 10 * ONE },
        ],
        vec![KeyScale { scale: Vector3::new(ONE, ONE, ONE), time_stamp: 0 }],
    )
}

fn rotation_sample(tick: i64) -> Pose {
    Pose::Sampled(TrackSample {
        position: VectorSample::Held(Vector3::new(0, 0, 0)),
        rotation: RotationSample::Between {
            from: Quaternion::new(0, 0, 0, ONE),
            to: Quaternion::new(0, ONE, 0, 0),
            factor: Factor { elapsed: tick as i128, span: (10 * ONE) as i128 },
        },
        scale: VectorSample::Held(Vector3::new(ONE, ONE, ONE)),
    })
}

/// root (mesh 0, bone 3) -> child (mesh 1, rotation track, bone 4) -> tip (no track)
fn model() -> Animator {
    let tip = NodeData::new("tip", moved(3), vec![], vec![2]);
    let child = NodeData::new("child", moved(2), vec![tip], vec![1]);
    let root = NodeData::new("root", moved(1), vec![child], vec![0]);
    let bones = BoneTable::new(vec![
        BoneData::new("root", 3, moved(30)),
        BoneData::new("child", 4, moved(40)),
    ]);
    let animation = ModelAnimation {
        duration: 10 * ONE,
        ticks_per_second: TEN_PER_SECOND,
        node_animations: vec![rotation_track("child")],
    };
    Animator::new(root, moved(-1), bones, animation).unwrap()
}

fn root_pose() -> Pose {
    compose(Pose::Fixed(moved(-1)), Pose::Fixed(moved(1)))
}

fn child_pose(tick: i64) -> Pose {
    compose(root_pose(), rotation_sample(tick))
}

fn tip_pose(tick: i64) -> Pose {
    compose(child_pose(tick), Pose::Fixed(moved(3)))
}

fn identity() -> Pose {
    Pose::Fixed(Transform::identity())
}

#[test]
fn new_animator_plays_the_whole_animation_forever() {
    let a = model();
    assert_eq!(
        a.current_animation,
        PlayingAnimation {
            animation_clip: AnimationClip::new(0, 10 * ONE, AnimationRepeat::Forever),
            current_tick: -1,
            ticks_per_second: TEN_PER_SECOND,
            repeat_completions: 0,
        }
    );
    assert!(a.transitions.is_empty());
    assert_eq!(a.node_transforms.len(), 0);
    assert_eq!(a.final_bone_matrices.len(), BONE_CAPACITY);
    assert_eq!(a.final_node_matrices.len(), NODE_CAPACITY);
    assert!(a.final_bone_matrices.iter().all(|p| *p == identity()));
    assert!(a.final_node_matrices.iter().all(|p| *p == identity()));
    assert_eq!(Transform::identity(), moved(0));
}

#[test]
fn indices_beyond_the_tables_are_refused_when_the_animator_is_built() {
    let build = |mesh: u32, bone: i32| {
        let root = NodeData::new("root", moved(1), vec![], vec![0]);
        let deep = NodeData::new("deep", moved(1), vec![], vec![mesh]);
        let top = NodeData::new("top", moved(1), vec![root, deep], vec![]);
        let bones = BoneTable::new(vec![BoneData::new("root", bone, moved(0))]);
        Animator::new(top, moved(0), bones, ModelAnimation::default())
    };
    assert!(build(49, 99).is_ok());
    assert_eq!(build(50, 99).err(), Some(Error::Precondition));
    assert_eq!(build(49, 100).err(), Some(Error::Precondition));
    assert_eq!(build(49, -1).err(), Some(Error::Precondition));
}

#[test]
fn a_shadowed_bone_does_not_count() {
    let root = NodeData::new("root", moved(1), vec![], vec![]);
    let bones = BoneTable::new(vec![
        BoneData::new("root", 500, moved(0)),
        BoneData::new("root", 5, moved(7)),
    ]);
    assert!(bones.fits(BONE_CAPACITY));
    assert_eq!(bones.get("root").unwrap().bone_index, 5);
    assert!(bones.get("hand").is_none());
    assert!(Animator::new(root, moved(0), bones, ModelAnimation::default()).is_ok());
}

#[test]
fn model_without_animation_is_the_empty_animation() {
    let none = ModelAnimation::new(vec![]);
    assert_eq!((none.duration, none.ticks_per_second, none.node_animations.len()), (0, 0, 0));
    let first = ModelAnimation {
        duration: 7,
        ticks_per_second: 3,
        node_animations: vec![rotation_track("a")],
    };
    let second = ModelAnimation { duration: 9, ticks_per_second: 4, node_animations: vec![] };
    let taken = ModelAnimation::new(vec![first, second]);
    assert_eq!((taken.duration, taken.ticks_per_second, taken.node_animations.len()), (7, 3, 1));
    assert_eq!(taken.node_animations[0].name, "a");
}

#[test]
fn update_animation_poses_the_hierarchy_end_to_end() {
    let mut a = model();
    // 0.3 seconds at ten ticks a second: tick 3.
    assert_eq!(a.update_animation(300_000), Ok(()));
    let tick = 3 * ONE;
    assert_eq!(a.current_animation.current_tick, tick);

    assert_eq!(a.node_transforms.len(), 3);
    assert_eq!(a.node_transforms.name_at(0), "root");
    assert_eq!(a.node_transforms.name_at(1), "child");
    assert_eq!(a.node_transforms.name_at(2), "tip");
    assert_eq!(a.node_transforms.entry_at(0).transform, root_pose());
    assert_eq!(a.node_transforms.entry_at(1).transform, child_pose(tick));
    assert_eq!(a.node_transforms.entry_at(2).transform, tip_pose(tick));
    assert_eq!(a.node_transforms.entry_at(2).meshes, vec![2]);

    // The child's mesh: the root's pose at rest composed with the sampled rotation.
    assert_eq!(a.final_node_matrices[1], child_pose(tick));
    assert_eq!(a.final_node_matrices[0], root_pose());
    assert_eq!(a.final_node_matrices[2], tip_pose(tick));
    assert_eq!(a.final_node_matrices[3], identity());

    // Bones: the global pose composed with the inverse bind pose.
    assert_eq!(a.final_bone_matrices[3], compose(root_pose(), Pose::Fixed(moved(30))));
    assert_eq!(a.final_bone_matrices[4], compose(child_pose(tick), Pose::Fixed(moved(40))));
    assert_eq!(a.final_bone_matrices[0], identity());
}

#[test]
fn untracked_node_stands_in_its_pose_at_rest() {
    let root = NodeData::new("root", moved(5), vec![], vec![7]);
    let bones = BoneTable::new(vec![BoneData::new("root", 2, moved(9))]);
    let mut a = Animator::new(root, moved(0), bones, ModelAnimation::default()).unwrap();
    assert_eq!(a.update_animation(16_000), Ok(()));
    let pose = compose(Pose::Fixed(moved(0)), Pose::Fixed(moved(5)));
    assert_eq!(a.node_transforms.entry_at(0).transform, pose);
    assert_eq!(a.final_node_matrices[7], pose);
    assert_eq!(a.final_bone_matrices[2], compose(pose, Pose::Fixed(moved(9))));
}

#[test]
fn play_clip_is_a_hard_cut() {
    let mut a = model();
    a.update_animation(300_000).unwrap();
    let clip = AnimationClip::new(2 * ONE, 4 * ONE, AnimationRepeat::Once);
    a.play_clip(&clip);
    assert_eq!(
        a.current_animation,
        PlayingAnimation {
            animation_clip: clip,
            current_tick: -1,
            ticks_per_second: TEN_PER_SECOND,
            repeat_completions: 0,
        }
    );
    assert!(a.transitions.is_empty());
    assert_eq!(a.final_node_matrices[1], child_pose(3 * ONE));
}

#[test]
fn play_clip_with_transition_keeps_the_old_animation_fading() {
    let mut a = model();
    a.update_animation(300_000).unwrap();
    let before = a.current_animation;
    let clip = AnimationClip::new(2 * ONE, 4 * ONE, AnimationRepeat::Once);
    a.play_clip_with_transition(&clip, 1_000_000);
    assert!(a.current_animation.current_tick < 0);
    assert_eq!(a.current_animation.animation_clip, clip);
    assert_eq!(
        a.transitions,
        vec![AnimationTransition {
            current_weight: FULL_WEIGHT,
            weight_decline_per_sec: 1_000_000_000,
            animation: before,
        }]
    );
    a.play_clip_with_transition(&clip, 3);
    assert_eq!(a.transitions.len(), 2);
    assert_eq!(a.transitions[1].current_weight, FULL_WEIGHT);
    // A third of full weight in each microsecond, rounded up.
    assert_eq!(a.transitions[1].weight_decline_per_sec, 333_333_333_333_334);
    a.play_clip_with_transition(&clip, 0);
    assert_eq!(a.transitions[2].weight_decline_per_sec, i64::MAX);
}

#[test]
fn transition_fades_out_in_its_duration() {
    let mut a = model();
    a.update_animation(100_000).unwrap();
    let clip = AnimationClip::new(0, 8 * ONE, AnimationRepeat::Once);
    a.play_clip_with_transition(&clip, 1_000_000);
    let mut weights = Vec::new();
    for _ in 0..4 {
        a.update_animation(250_000).unwrap();
        weights.push(a.transitions.iter().map(|t| t.current_weight).collect::<Vec<_>>());
    }
    assert_eq!(
        weights,
        vec![vec![3 * FULL_WEIGHT / 4], vec![FULL_WEIGHT / 2], vec![FULL_WEIGHT / 4], vec![]]
    );
}

#[test]
fn transition_is_blended_under_the_current_animation() {
    let mut a = model();
    a.update_animation(100_000).unwrap();
    let clip = AnimationClip::new(4 * ONE, 8 * ONE, AnimationRepeat::Once);
    a.play_clip_with_transition(&clip, 1_000_000);
    a.update_animation(200_000).unwrap();

    // The new clip has started at tick 4 and moved on by 2; the old animation has
    // moved from tick 1 to tick 3 and lost a fifth of its weight.
    assert_eq!(a.current_animation.current_tick, 6 * ONE);
    assert_eq!(a.transitions.len(), 1);
    assert_eq!(a.transitions[0].animation.current_tick, 3 * ONE);
    let weight = FULL_WEIGHT / 5 * 4;
    assert_eq!(a.transitions[0].current_weight, weight);

    assert_eq!(a.node_transforms.len(), 3);
    assert_eq!(a.node_transforms.entry_at(0).transform, blend(root_pose(), root_pose(), weight));
    let child = blend(child_pose(6 * ONE), child_pose(3 * ONE), weight);
    assert_eq!(a.node_transforms.entry_at(1).transform, child);
    assert_eq!(a.final_node_matrices[1], child);
    assert_eq!(a.final_bone_matrices[4], compose(child, Pose::Fixed(moved(40))));
    assert_eq!(
        a.final_node_matrices[2],
        blend(tip_pose(6 * ONE), tip_pose(3 * ONE), weight)
    );
}

#[test]
fn failed_frame_leaves_the_poses_of_the_last_frame() {
    let mut a = model();
    a.update_animation(300_000).unwrap();
    // A clip that plays once and ends on the track's last key cannot be sampled there.
    a.play_clip(&AnimationClip::new(9 * ONE, 10 * ONE, AnimationRepeat::Once));
    assert_eq!(a.update_animation(50_000), Ok(()));
    let posed = child_pose(9 * ONE + ONE / 2);
    assert_eq!(a.final_node_matrices[1], posed);
    assert_eq!(a.update_animation(50_000), Err(Error::DataError));
    assert_eq!(a.current_animation.current_tick, 10 * ONE);
    assert_eq!(a.node_transforms.len(), 0);
    assert_eq!(a.final_node_matrices[1], posed);
}

#[test]
fn weighted_animations_are_folded_in_list_order() {
    let mut a = model();
    let list = vec![
        WeightedAnimation::new(FULL_WEIGHT / 5 * 3, 0, 4 * ONE, 0, 0),
        WeightedAnimation::new(0, 0, 4 * ONE, 0, 0),
        WeightedAnimation::new(FULL_WEIGHT / 5 * 2, 4 * ONE, 8 * ONE, ONE, 1_000_000),
    ];
    // At 1.1 seconds: 11 ticks wrap to 3 in the first clip; the third entry has
    // played for a tick and stands at 4 + 1 + 1.
    assert_eq!(a.play_weight_animations(&list, 1_100_000), Ok(()));
    assert_eq!(a.node_transforms.len(), 3);
    let child = blend(child_pose(3 * ONE), child_pose(6 * ONE), FULL_WEIGHT / 5 * 2);
    assert_eq!(a.node_transforms.entry_at(1).transform, child);
    assert_eq!(a.final_node_matrices[1], child);
    assert_eq!(a.final_bone_matrices[4], compose(child, Pose::Fixed(moved(40))));
    // The playhead and the transitions are left alone.
    assert_eq!(a.current_animation.current_tick, -1);
    assert!(a.transitions.is_empty());
}

#[test]
fn weighted_entry_outside_its_clip_is_rejected_alone() {
    let mut a = model();
    a.update_animation(300_000).unwrap();
    let list = vec![
        WeightedAnimation::new(FULL_WEIGHT / 5 * 3, 0, 4 * ONE, 0, 0),
        WeightedAnimation::new(0, 0, 4 * ONE, -12 * ONE, 0),
        WeightedAnimation::new(FULL_WEIGHT, 0, 4 * ONE, -12 * ONE, 0),
        WeightedAnimation::new(FULL_WEIGHT, 0, 0, 0, 0),
        WeightedAnimation::new(FULL_WEIGHT / 5 * 2, 4 * ONE, 8 * ONE, ONE, 1_000_000),
    ];
    // The third entry is the first that counts and stands outside its clip.
    assert_eq!(a.play_weight_animations(&list, 1_100_000), Err(Error::ConfigError(2)));
    // The frame went on with the first and the last entry, as if the others were not
    // in the list.
    let child = blend(child_pose(3 * ONE), child_pose(6 * ONE), FULL_WEIGHT / 5 * 2);
    assert_eq!(a.node_transforms.len(), 3);
    assert_eq!(a.node_transforms.entry_at(1).transform, child);
    assert_eq!(a.final_node_matrices[1], child);
    assert_eq!(a.final_bone_matrices[4], compose(child, Pose::Fixed(moved(40))));
}

#[test]
fn rejected_entry_between_valid_ones_leaves_them_in_the_frame() {
    let root = NodeData::new("root", moved(1), vec![], vec![0]);
    let mut a =
        Animator::new(root, moved(0), BoneTable::new(vec![]), ModelAnimation::default()).unwrap();
    a.model_animation.ticks_per_second = TEN_PER_SECOND;
    // Clip 10 to 20: without an offset the tick is 10, with an offset of -5 it is 5.
    let list = vec![
        WeightedAnimation::new(FULL_WEIGHT, 10 * ONE, 20 * ONE, 0, 0),
        WeightedAnimation::new(FULL_WEIGHT, 10 * ONE, 20 * ONE, -5 * ONE, 0),
    ];
    assert_eq!(a.play_weight_animations(&list, 0), Err(Error::ConfigError(1)));
    let pose = compose(Pose::Fixed(moved(0)), Pose::Fixed(moved(1)));
    assert_eq!(a.node_transforms.len(), 1);
    assert_eq!(a.node_transforms.entry_at(0).transform, pose);
    assert_eq!(a.final_node_matrices[0], pose);
    // With the rejected entry alone nothing is posed.
    assert_eq!(a.play_weight_animations(&list[1..].to_vec(), 0), Err(Error::ConfigError(0)));
    assert_eq!(a.node_transforms.len(), 0);
    assert_eq!(a.final_node_matrices[0], pose);
}

#[test]
fn weighted_entry_past_its_track_is_a_data_error() {
    let mut a = model();
    a.update_animation(300_000).unwrap();
    let list = vec![WeightedAnimation::new(FULL_WEIGHT, 0, 20 * ONE, 0, 0)];
    assert_eq!(a.play_weight_animations(&list, 1_500_000), Err(Error::DataError));
    assert_eq!(a.node_transforms.len(), 0);
    assert_eq!(a.final_node_matrices[1], child_pose(3 * ONE));
}

#[test]
fn nodes_of_one_name_share_an_entry() {
    let twin_a = NodeData::new("twin", moved(2), vec![], vec![1]);
    let twin_b = NodeData::new("twin", moved(3), vec![], vec![2]);
    let root = NodeData::new("root", moved(1), vec![twin_a, twin_b], vec![]);
    let mut map = NodeMap::new();
    let base = Pose::Fixed(moved(0));
    assert_eq!(calculate_transform_maps(&root, &vec![], &mut map, &base, 0, 250), Ok(()));
    assert_eq!(map.len(), 2);
    let under_root = compose(Pose::Fixed(moved(0)), Pose::Fixed(moved(1)));
    assert_eq!(map.find("twin"), Some(1));
    assert_eq!(map.find("root"), Some(0));
    assert_eq!(map.find("other"), None);
    assert_eq!(
        map.entry_at(1).transform,
        blend(
            compose(under_root.clone(), Pose::Fixed(moved(2))),
            compose(under_root, Pose::Fixed(moved(3))),
            250
        )
    );
    // The entry keeps the meshes of the node that was written first.
    assert_eq!(map.entry_at(1).meshes, vec![1]);
}

#[test]
fn first_track_of_a_name_is_the_one_that_counts() {
    let root = NodeData::new("root", moved(1), vec![], vec![]);
    let held = NodeAnimation::new(
        "root",
        vec![KeyPosition { position: Vector3::new(7, 7, 7), time_stamp: 0 }],
        vec![KeyRotation { orientation: Quaternion::new(0, 0, 0, ONE), time_stamp: 0 }],
        vec![KeyScale { scale: Vector3::new(ONE, ONE, ONE), time_stamp: 0 }],
    );
    let tracks = vec![rotation_track("other"), held, rotation_track("root")];
    let mut map = NodeMap::new();
    let base = Pose::Fixed(moved(0));
    assert_eq!(calculate_transform_maps(&root, &tracks, &mut map, &base, 99 * ONE, ONE), Ok(()));
    assert_eq!(
        map.entry_at(0).transform,
        compose(
            Pose::Fixed(moved(0)),
            Pose::Sampled(TrackSample {
                position: VectorSample::Held(Vector3::new(7, 7, 7)),
                rotation: RotationSample::Held(Quaternion::new(0, 0, 0, ONE)),
                scale: VectorSample::Held(Vector3::new(ONE, ONE, ONE)),
            })
        )
    );
}

#[test]
fn node_map_write_and_clear() {
    let mut map = NodeMap::new();
    map.write("a", &vec![1, 2], Pose::Fixed(moved(1)), 5);
    map.write("b", &vec![], Pose::Fixed(moved(2)), 5);
    map.write("a", &vec![9], Pose::Fixed(moved(3)), 6);
    assert_eq!(map.len(), 2);
    assert_eq!(map.find("a"), Some(0));
    assert_eq!(map.find("b"), Some(1));
    assert_eq!(map.entry_at(0).transform, blend(Pose::Fixed(moved(1)), Pose::Fixed(moved(3)), 6));
    assert_eq!(map.entry_at(0).meshes, vec![1, 2]);
    map.clear();
    assert_eq!(map.len(), 0);
    assert_eq!(map.find("a"), None);
    map.write("b", &vec![], Pose::Fixed(moved(2)), 5);
    assert_eq!(map.find("b"), Some(0));
}

#[test]
fn node_transform_takes_a_pose_and_a_copy_of_the_meshes() {
    let meshes = vec![4, 5];
    let n = NodeTransform::new(Pose::Fixed(moved(1)), &meshes);
    assert_eq!(n.transform, Pose::Fixed(moved(1)));
    assert_eq!(n.meshes, meshes);
}

#[test]
fn later_entry_wins_a_shared_mesh_slot() {
    let a_node = NodeData::new("a", moved(2), vec![], vec![5]);
    let b_node = NodeData::new("b", moved(3), vec![], vec![5, 6]);
    let root = NodeData::new("root", moved(1), vec![a_node, b_node], vec![]);
    let mut a =
        Animator::new(root, moved(0), BoneTable::new(vec![]), ModelAnimation::default()).unwrap();
    a.update_animation(0).unwrap();
    let under_root = compose(Pose::Fixed(moved(0)), Pose::Fixed(moved(1)));
    let b_pose = compose(under_root, Pose::Fixed(moved(3)));
    assert_eq!(a.final_node_matrices[5], b_pose);
    assert_eq!(a.final_node_matrices[6], b_pose);
}

#[test]
fn pose_clone_is_equal() {
    let p = blend(child_pose(ONE), tip_pose(2 * ONE), 17);
    assert_eq!(p.clone(), p);
}

#[test]
fn bones_are_registered_in_dense_slots() {
    let mut table = BoneTable::empty();
    assert_eq!(table.len(), 0);
    assert_eq!(table.register("hip", moved(1)), 0);
    assert_eq!(table.register("knee", moved(2)), 1);
    assert_eq!(table.register("hip", moved(9)), 0);
    assert_eq!(table.register("foot", moved(3)), 2);
    assert_eq!(table.len(), 3);
    // A bone that is registered again keeps its inverse bind pose.
    assert_eq!(table.get("hip").unwrap().offset_transform, moved(1));
    assert_eq!(table.get("foot").unwrap().bone_index, 2);
    assert!(table.get("hand").is_none());
    assert!(table.fits(3));
    assert!(!table.fits(2));
}

#[test]
fn fade_of_ten_minutes_ends_when_its_time_is_over() {
    let mut a = model();
    a.play_clip(&AnimationClip::new(0, 5 * ONE, AnimationRepeat::Once));
    a.play_clip_with_transition(
        &AnimationClip::new(0, 5 * ONE, AnimationRepeat::Once),
        600_000_000,
    );
    assert_eq!(a.transitions[0].weight_decline_per_sec, 1_666_667);
    // A tenth of a second before the end the transition is still there, faintly.
    a.update_animation(599_900_000).unwrap();
    assert_eq!(a.transitions.len(), 1);
    assert_eq!(a.transitions[0].current_weight, FULL_WEIGHT - 1_666_667 * 599_900_000);
    assert!(a.transitions[0].current_weight < FULL_WEIGHT / 5000);
    a.update_animation(100_000).unwrap();
    assert!(a.transitions.is_empty());
}
