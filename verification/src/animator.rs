use crate::error::Error;
use crate::model_animation::{
    bones_fit, meshes_fit, BoneRecord, BoneTable, ModelAnimation, NodeData,
};
use crate::node_animation::{sample_track, NodeAnimation};
use crate::node_map::{written, NodeMap, NodeRecord};
use crate::proofs::{aged_through, lemma_one_frame};
use crate::transform::{Pose, Transform, FULL_WEIGHT};
use crate::utils::min;
use vstd::prelude::*;

verus! {

/// The number of slots in the table of bone poses.
pub const BONE_CAPACITY: usize = 100;

/// The number of slots in the table of node poses.
pub const NODE_CAPACITY: usize = 50;

/// By how far a weighted tick may leave its clip and still be taken: a hundredth of a
/// tick.
pub const TICK_TOLERANCE: i64 = 10_000_000;

/// What a playhead does when it runs past the end of its clip.
#[derive(Clone, Copy, Debug, PartialEq, Eq, Structural)]
pub enum AnimationRepeat {
    /// Stop at the end.
    Once,
    /// Play the given number of times. The playhead counts its completions and does
    /// not enforce the count: it runs on past the end.
    Count(u32),
    /// Start over.
    Forever,
}

/// A stretch of the model's animation, with what to do at its end.
#[derive(Clone, Copy, Debug, PartialEq, Eq, Structural)]
pub struct AnimationClip {
    pub start_tick: i64,
    pub end_tick: i64,
    pub repeat: AnimationRepeat,
}

impl AnimationClip {
    pub fn new(start_tick: i64, end_tick: i64, repeat: AnimationRepeat) -> (r: Self)
        ensures
            r == (AnimationClip { start_tick, end_tick, repeat }),
    {
        AnimationClip { start_tick, end_tick, repeat }
    }
}

/// One input of a weighted blend, for a single frame.
#[derive(Clone, Copy, Debug, PartialEq, Eq, Structural)]
pub struct WeightedAnimation {
    /// The weight at which the clip is blended in; an entry counts where it is
    /// positive.
    pub weight: i64,
    pub start_tick: i64,
    pub end_tick: i64,
    /// A phase shift, in ticks.
    pub offset: i64,
    /// Where positive, the time at which the clip was started, in microseconds: the
    /// clip then plays once and holds its end. Otherwise the clip loops.
    pub optional_start: i64,
}

impl WeightedAnimation {
    pub fn new(weight: i64, start_tick: i64, end_tick: i64, offset: i64, optional_start: i64) -> (r:
        Self)
        ensures
            r == (WeightedAnimation { weight, start_tick, end_tick, offset, optional_start }),
    {
        WeightedAnimation { weight, start_tick, end_tick, offset, optional_start }
    }
}

/// A clip with its playhead. A negative `current_tick` says that the clip has not
/// started yet.
#[derive(Clone, Copy, Debug, PartialEq, Eq, Structural)]
pub struct PlayingAnimation {
    pub animation_clip: AnimationClip,
    pub current_tick: i64,
    /// By how much `current_tick` moves on in each microsecond.
    pub ticks_per_second: i64,
    /// The number of updates that took the playhead past the end of its clip.
    pub repeat_completions: u32,
}

/// An animation that is being faded out under the current one.
#[derive(Clone, Copy, Debug, PartialEq, Eq, Structural)]
pub struct AnimationTransition {
    /// Starts at full weight and falls to nothing during the fade.
    pub current_weight: i64,
    /// By how much `current_weight` falls in each microsecond.
    pub weight_decline_per_sec: i64,
    /// The animation that is being faded out.
    pub animation: PlayingAnimation,
}

/// `x`, or the nearest value that a tick or a weight can hold.
pub open spec fn clip_to_i64(x: int) -> i64 {
    if x < i64::MIN {
        i64::MIN
    } else if x > i64::MAX {
        i64::MAX
    } else {
        x as i64
    }
}

/// `x` brought into the range of a tick or a weight.
fn clip_i128(x: i128) -> (r: i64)
    ensures
        r == clip_to_i64(x as int),
{
    if x < i64::MIN as i128 {
        i64::MIN
    } else if x > i64::MAX as i128 {
        i64::MAX
    } else {
        x as i64
    }
}

/// `a + b * c`, none of whose intermediate values leaves the range of `i128`.
fn mul_add(a: i64, b: i64, c: i64) -> (r: i128)
    ensures
        r == a + b * c,
{
    assert(-0x4000_0000_0000_0000_0000_0000_0000_0000 <= (b as int) * (c as int)
        <= 0x4000_0000_0000_0000_0000_0000_0000_0000) by (nonlinear_arith)
        requires
            -0x8000_0000_0000_0000 <= b as int <= 0x8000_0000_0000_0000,
            -0x8000_0000_0000_0000 <= c as int <= 0x8000_0000_0000_0000,
    ;
    let product: i128 = (b as i128) * (c as i128);
    a as i128 + product
}

impl PlayingAnimation {
    /// A playhead for `clip` that has not started yet.
    pub open spec fn unstarted(clip: AnimationClip, ticks_per_second: i64) -> PlayingAnimation {
        PlayingAnimation {
            animation_clip: clip,
            current_tick: -1i64,
            ticks_per_second,
            repeat_completions: 0,
        }
    }

    /// The clip has not started yet.
    pub open spec fn is_unstarted(self) -> bool {
        self.current_tick < 0
    }

    /// The tick from which an update moves the playhead on: an unstarted playhead first
    /// snaps to the start of its clip.
    pub open spec fn begun_tick(self) -> i64 {
        if self.current_tick < 0 {
            self.animation_clip.start_tick
        } else {
            self.current_tick
        }
    }

    /// Where the playhead would stand after moving on by `delta_time`, were there no
    /// end to the clip and no limit to what a tick can hold.
    pub open spec fn moved_tick(self, delta_time: i64) -> int {
        self.begun_tick() + self.ticks_per_second * delta_time
    }

    /// An update by `delta_time` takes the playhead past the end of its clip.
    pub open spec fn passes_end(self, delta_time: i64) -> bool {
        self.moved_tick(delta_time) > self.animation_clip.end_tick
    }

    /// Where the playhead stands after an update by `delta_time`.
    pub open spec fn next_tick(self, delta_time: i64) -> i64 {
        if self.passes_end(delta_time) {
            match self.animation_clip.repeat {
                AnimationRepeat::Once => self.animation_clip.end_tick,
                AnimationRepeat::Count(_) => clip_to_i64(self.moved_tick(delta_time)),
                AnimationRepeat::Forever => self.animation_clip.start_tick,
            }
        } else {
            clip_to_i64(self.moved_tick(delta_time))
        }
    }

    /// The number of completions after an update by `delta_time`: one more for an
    /// update that takes the playhead past the end of its clip, up to the most that
    /// the counter holds.
    pub open spec fn next_completions(self, delta_time: i64) -> u32 {
        if self.passes_end(delta_time) && self.repeat_completions < u32::MAX {
            (self.repeat_completions + 1) as u32
        } else {
            self.repeat_completions
        }
    }

    /// The playhead after an update by `delta_time`.
    pub open spec fn advanced(self, delta_time: i64) -> PlayingAnimation {
        PlayingAnimation {
            current_tick: self.next_tick(delta_time),
            repeat_completions: self.next_completions(delta_time),
            ..self
        }
    }

    /// Moves the playhead on by `delta_time` microseconds, and counts the update as a
    /// completion where it takes the playhead past the end of its clip.
    pub fn update(&mut self, delta_time: i64)
        ensures
            *final(self) == old(self).advanced(delta_time),
    {
        if self.current_tick < 0 {
            self.current_tick = self.animation_clip.start_tick;
        }
        let moved = mul_add(self.current_tick, self.ticks_per_second, delta_time);
        self.current_tick = clip_i128(moved);

        if moved > widen(self.animation_clip.end_tick) {
            if self.repeat_completions < u32::MAX {
                self.repeat_completions = self.repeat_completions + 1;
            }
            match self.animation_clip.repeat {
                AnimationRepeat::Once => {
                    self.current_tick = self.animation_clip.end_tick;
                },
                AnimationRepeat::Count(_) => {},
                AnimationRepeat::Forever => {
                    self.current_tick = self.animation_clip.start_tick;
                },
            }
        }
    }
}

/// A playhead that repeats forever stands at the very start of its clip after the
/// update that takes it past the end, however far past the end that update went, and
/// the update is counted as one completion.
pub proof fn lemma_forever_resets_to_start(playing: PlayingAnimation, delta_time: i64)
    requires
        playing.animation_clip.repeat == AnimationRepeat::Forever,
        playing.begun_tick() + playing.ticks_per_second * delta_time
            > playing.animation_clip.end_tick,
    ensures
        playing.advanced(delta_time).current_tick == playing.animation_clip.start_tick,
        playing.repeat_completions < u32::MAX ==> playing.advanced(
            delta_time,
        ).repeat_completions == playing.repeat_completions + 1,
{
}

/// An update that does not take the playhead past the end of its clip moves it on by
/// its rate times the time, and counts nothing.
pub proof fn lemma_update_within_clip(playing: PlayingAnimation, delta_time: i64)
    requires
        !playing.passes_end(delta_time),
        playing.moved_tick(delta_time) >= i64::MIN,
    ensures
        playing.advanced(delta_time).current_tick == playing.begun_tick()
            + playing.ticks_per_second * delta_time,
        playing.advanced(delta_time).repeat_completions == playing.repeat_completions,
{
}

/// A playhead that plays once never stands past the end of its clip after an update,
/// and one that repeats forever never does unless its clip ends before it starts.
pub proof fn lemma_playhead_stays_in_clip(playing: PlayingAnimation, delta_time: i64)
    requires
        playing.animation_clip.repeat != AnimationRepeat::Forever
            || playing.animation_clip.start_tick <= playing.animation_clip.end_tick,
        !(playing.animation_clip.repeat is Count),
    ensures
        playing.advanced(delta_time).current_tick <= playing.animation_clip.end_tick,
{
}

/// A playhead that is played forwards over a clip that starts at a tick that is not
/// negative has started after an update, and does not stand before the start of its
/// clip.
pub proof fn lemma_update_starts_playhead(playing: PlayingAnimation, delta_time: i64)
    requires
        0 <= playing.animation_clip.start_tick <= playing.animation_clip.end_tick,
        playing.ticks_per_second >= 0,
        delta_time >= 0,
        playing.is_unstarted() || playing.current_tick >= playing.animation_clip.start_tick,
    ensures
        !playing.advanced(delta_time).is_unstarted(),
        playing.advanced(delta_time).current_tick >= playing.animation_clip.start_tick,
{
    assert(playing.ticks_per_second * delta_time >= 0) by (nonlinear_arith)
        requires
            playing.ticks_per_second >= 0,
            delta_time >= 0,
    ;
}

impl AnimationTransition {
    /// The weight after `delta_time` microseconds more of the fade.
    pub open spec fn aged_weight(self, delta_time: i64) -> i64 {
        clip_to_i64(self.current_weight - self.weight_decline_per_sec * delta_time)
    }

    /// The transition after `delta_time` microseconds more of the fade.
    pub open spec fn aged(self, delta_time: i64) -> AnimationTransition {
        AnimationTransition { current_weight: self.aged_weight(delta_time), ..self }
    }

    /// The transition with its playhead moved on by `delta_time`.
    pub open spec fn stepped(self, delta_time: i64) -> AnimationTransition {
        AnimationTransition { animation: self.animation.advanced(delta_time), ..self }
    }
}

/// The transitions that are left after all of them have aged by `delta_time`: those
/// whose weight is still positive, in their old order.
pub open spec fn surviving(transitions: Seq<AnimationTransition>, delta_time: i64) -> Seq<
    AnimationTransition,
>
    decreases transitions.len(),
{
    if transitions.len() == 0 {
        Seq::empty()
    } else {
        let before = surviving(transitions.drop_last(), delta_time);
        let last = transitions.last().aged(delta_time);
        if last.current_weight > 0 {
            before.push(last)
        } else {
            before
        }
    }
}

/// The rate of decline that takes a full weight to nothing in `duration`
/// microseconds: the quotient of the two, rounded up so that the fade is over when
/// the time is. A fade of no duration declines at the highest rate there is.
pub open spec fn decline_for(duration: u64) -> i64 {
    if duration == 0 {
        i64::MAX
    } else {
        ((FULL_WEIGHT + duration - 1) / (duration as int)) as i64
    }
}

/// `a - b * c`, none of whose intermediate values leaves the range of `i128`.
fn mul_sub(a: i64, b: i64, c: i64) -> (r: i128)
    ensures
        r == a - b * c,
{
    assert(-0x4000_0000_0000_0000_0000_0000_0000_0000 <= (b as int) * (c as int)
        <= 0x4000_0000_0000_0000_0000_0000_0000_0000) by (nonlinear_arith)
        requires
            -0x8000_0000_0000_0000 <= b as int <= 0x8000_0000_0000_0000,
            -0x8000_0000_0000_0000 <= c as int <= 0x8000_0000_0000_0000,
    ;
    let product: i128 = (b as i128) * (c as i128);
    a as i128 - product
}

/// The rate of decline for a fade of `duration` microseconds.
fn decline_rate(duration: u64) -> (r: i64)
    ensures
        r == decline_for(duration),
{
    if duration == 0 {
        i64::MAX
    } else {
        let whole: u128 = FULL_WEIGHT as u128 + duration as u128 - 1;
        let rate: u128 = whole / (duration as u128);
        assert(rate <= FULL_WEIGHT) by (nonlinear_arith)
            requires
                rate == (FULL_WEIGHT + duration - 1) / (duration as int),
                duration >= 1,
        ;
        rate as i64
    }
}

/// `a` as a wide integer.
fn widen(a: i64) -> (r: i128)
    ensures
        r == a,
{
    a as i128
}

/// `a - b`, which always fits a wide integer.
fn wide_sub(a: i64, b: i64) -> (r: i128)
    ensures
        r == a - b,
{
    a as i128 - b as i128
}

/// `a + b`, which always fits a wide integer.
fn wide_add(a: i64, b: i64) -> (r: i128)
    ensures
        r == a + b,
{
    a as i128 + b as i128
}

/// `x` as a tick, where it is one.
fn narrow(x: i128) -> (r: Option<i64>)
    ensures
        r == (if i64::MIN <= x <= i64::MAX {
            Some(x as i64)
        } else {
            None
        }),
{
    if x < i64::MIN as i128 || x > i64::MAX as i128 {
        None
    } else {
        Some(x as i64)
    }
}

/// The remainder of `a` by `b` that has the sign of `a`: what is left of `a` when
/// whole multiples of `b` are taken off towards zero.
pub open spec fn truncated_rem(a: int, b: int) -> int
    recommends
        b != 0,
{
    let modulus = if b < 0 {
        -b
    } else {
        b
    };
    if a >= 0 {
        a % modulus
    } else {
        -((-a) % modulus)
    }
}

/// The remainder of `a` by `b` that has the sign of `a`.
fn rem_toward_zero(a: i128, b: i128) -> (r: i128)
    requires
        b != 0,
        -0x7000_0000_0000_0000_0000_0000_0000_0000 < a < 0x7000_0000_0000_0000_0000_0000_0000_0000,
        -0x7000_0000_0000_0000_0000_0000_0000_0000 < b < 0x7000_0000_0000_0000_0000_0000_0000_0000,
    ensures
        r == truncated_rem(a as int, b as int),
{
    let modulus: i128 = if b < 0 {
        -b
    } else {
        b
    };
    if a >= 0 {
        a % modulus
    } else {
        let positive: i128 = -a;
        -(positive % modulus)
    }
}

impl WeightedAnimation {
    /// How far into its clip the entry stands at `frame_time`: where the entry has a
    /// start time, the ticks played since then plus the offset, held at the length of
    /// the clip; where it has none, the ticks played by `frame_time` plus the offset,
    /// wrapped round the length of the clip.
    pub open spec fn relative_tick(self, ticks_per_second: i64, frame_time: i64) -> int {
        let tick_range = self.end_tick - self.start_tick;
        if self.optional_start > 0 {
            let tick = (frame_time - self.optional_start) * ticks_per_second + self.offset;
            if tick < tick_range {
                tick
            } else {
                tick_range
            }
        } else {
            truncated_rem(frame_time * ticks_per_second + self.offset, tick_range)
        }
    }

    /// The tick at which the entry is sampled at `frame_time`. There is none where the
    /// tick would lie further than [`TICK_TOLERANCE`] outside the clip, where a looping
    /// clip has no length, or where the tick or the time since the start cannot be
    /// represented.
    pub open spec fn target_tick(self, ticks_per_second: i64, frame_time: i64) -> Option<i64> {
        let tick = self.relative_tick(ticks_per_second, frame_time) + self.start_tick;
        if self.optional_start > 0 && !(i64::MIN <= frame_time - self.optional_start
            <= i64::MAX) {
            None
        } else if self.optional_start <= 0 && self.end_tick - self.start_tick == 0 {
            None
        } else if self.start_tick - TICK_TOLERANCE <= tick <= self.end_tick + TICK_TOLERANCE
            && i64::MIN <= tick <= i64::MAX {
            Some(tick as i64)
        } else {
            None
        }
    }

    /// The ticks played since the entry's start, with the offset, held at the length
    /// of the clip.
    fn held_tick(&self, ticks_per_second: i64, elapsed: i64) -> (r: i128)
        ensures
            r == (if elapsed * ticks_per_second + self.offset < self.end_tick - self.start_tick {
                elapsed * ticks_per_second + self.offset
            } else {
                self.end_tick - self.start_tick
            }),
            -0x6000_0000_0000_0000_0000_0000_0000_0000 < r
                < 0x6000_0000_0000_0000_0000_0000_0000_0000,
    {
        let tick_range = wide_sub(self.end_tick, self.start_tick);
        let tick = mul_add(self.offset, elapsed, ticks_per_second);
        assert(-0x4000_0000_0000_0000_0000_0000_0000_0000 <= elapsed * ticks_per_second
            <= 0x4000_0000_0000_0000_0000_0000_0000_0000) by (nonlinear_arith)
            requires
                -0x8000_0000_0000_0000 <= elapsed <= 0x8000_0000_0000_0000,
                -0x8000_0000_0000_0000 <= ticks_per_second <= 0x8000_0000_0000_0000,
        ;
        min(tick, tick_range)
    }

    /// The tick at which the entry is sampled at `frame_time`, where there is one.
    pub fn target(&self, ticks_per_second: i64, frame_time: i64) -> (r: Option<i64>)
        ensures
            r == self.target_tick(ticks_per_second, frame_time),
    {
        let tick_range = wide_sub(self.end_tick, self.start_tick);
        let relative: i128 = if self.optional_start > 0 {
            match narrow(wide_sub(frame_time, self.optional_start)) {
                Some(elapsed) => self.held_tick(ticks_per_second, elapsed),
                None => {
                    return None;
                },
            }
        } else {
            if tick_range == 0 {
                return None;
            }
            let played = mul_add(self.offset, frame_time, ticks_per_second);
            assert(-0x4000_0000_0000_0000_0000_0000_0000_0000 <= frame_time * ticks_per_second
                <= 0x4000_0000_0000_0000_0000_0000_0000_0000) by (nonlinear_arith)
                requires
                    -0x8000_0000_0000_0000 <= frame_time <= 0x8000_0000_0000_0000,
                    -0x8000_0000_0000_0000 <= ticks_per_second <= 0x8000_0000_0000_0000,
            ;
            let wrapped = rem_toward_zero(played, tick_range);
            assert(-0x6000_0000_0000_0000_0000_0000_0000_0000 < wrapped
                < 0x6000_0000_0000_0000_0000_0000_0000_0000) by {
                let modulus: int = if tick_range < 0 {
                    -tick_range
                } else {
                    tick_range as int
                };
                if played >= 0 {
                    assert(0 <= (played as int) % modulus < modulus);
                } else {
                    assert(0 <= (-played) % modulus < modulus);
                }
            }
            wrapped
        };
        let target_anim_ticks: i128 = relative + widen(self.start_tick);
        if target_anim_ticks < wide_sub(self.start_tick, TICK_TOLERANCE) || target_anim_ticks
            > wide_add(self.end_tick, TICK_TOLERANCE) {
            return None;
        }
        narrow(target_anim_ticks)
    }
}

/// The entry at position `i` is the first in `list` that counts and has no tick to be
/// sampled at.
pub open spec fn is_first_invalid(
    list: Seq<WeightedAnimation>,
    ticks_per_second: i64,
    frame_time: i64,
    i: int,
) -> bool {
    &&& 0 <= i < list.len()
    &&& list[i].weight > 0
    &&& list[i].target_tick(ticks_per_second, frame_time) is None
    &&& forall|j: int|
        0 <= j < i ==> !((#[trigger] list[j]).weight > 0 && list[j].target_tick(
            ticks_per_second,
            frame_time,
        ) is None)
}

/// Every entry of `list` that counts has a tick to be sampled at.
pub open spec fn all_valid(
    list: Seq<WeightedAnimation>,
    ticks_per_second: i64,
    frame_time: i64,
) -> bool {
    forall|i: int|
        0 <= i < list.len() && (#[trigger] list[i]).weight > 0 ==> list[i].target_tick(
            ticks_per_second,
            frame_time,
        ) is Some
}

/// The node map after the hierarchy was walked for each entry of `list` that counts
/// and has a tick to be sampled at, in their order, each at its own tick and weight.
/// Entries without a positive weight do not count, and entries without a tick are
/// left out.
pub open spec fn blend_weighted(
    root: NodeData,
    tracks: Seq<NodeAnimation>,
    base: Pose,
    list: Seq<WeightedAnimation>,
    ticks_per_second: i64,
    frame_time: i64,
    map: Seq<NodeRecord>,
) -> Option<Seq<NodeRecord>>
    decreases list.len(),
{
    if list.len() == 0 {
        Some(map)
    } else {
        match blend_weighted(
            root,
            tracks,
            base,
            list.drop_last(),
            ticks_per_second,
            frame_time,
            map,
        ) {
            Some(before) => match list.last().target_tick(ticks_per_second, frame_time) {
                Some(tick) if list.last().weight > 0 => walk(
                    root,
                    tracks,
                    base,
                    tick,
                    list.last().weight,
                    before,
                ),
                _ => Some(before),
            },
            None => None,
        }
    }
}

/// `tracks[i]` is the first track authored for the node called `name`.
pub open spec fn is_track_of(tracks: Seq<NodeAnimation>, name: Seq<char>, i: int) -> bool {
    &&& 0 <= i < tracks.len()
    &&& tracks[i].name@ == name
    &&& forall|j: int| 0 <= j < i ==> (#[trigger] tracks[j]).name@ != name
}

/// Some track was authored for the node called `name`.
pub open spec fn has_track(tracks: Seq<NodeAnimation>, name: Seq<char>) -> bool {
    exists|i: int| is_track_of(tracks, name, i)
}

/// The position of the first track authored for the node called `name`.
pub open spec fn track_of(tracks: Seq<NodeAnimation>, name: Seq<char>) -> int {
    choose|i: int| is_track_of(tracks, name, i)
}

/// The local pose of `node` at `tick`: its track sampled there where it has one, its
/// transform at rest where it has none; nothing where the track cannot be sampled.
pub open spec fn local_pose(node: NodeData, tracks: Seq<NodeAnimation>, tick: i64) -> Option<Pose> {
    if has_track(tracks, node.name@) {
        match sample_track(tracks[track_of(tracks, node.name@)], tick) {
            Some(sample) => Some(Pose::Sampled(sample)),
            None => None,
        }
    } else {
        Some(Pose::Fixed(node.transform))
    }
}

/// The global pose of `node` at `tick` under the global pose `parent`.
pub open spec fn global_pose(
    node: NodeData,
    tracks: Seq<NodeAnimation>,
    parent: Pose,
    tick: i64,
) -> Option<Pose> {
    match local_pose(node, tracks, tick) {
        Some(local) => Some(Pose::Compose(Box::new(parent), Box::new(local))),
        None => None,
    }
}

/// The node map after the hierarchy under `node` was walked depth first, parents
/// before children, for one animation source: every node's global pose at `tick` is
/// written into `map` at `weight`. Nothing where some track cannot be sampled.
pub open spec fn walk(
    node: NodeData,
    tracks: Seq<NodeAnimation>,
    parent: Pose,
    tick: i64,
    weight: i64,
    map: Seq<NodeRecord>,
) -> Option<Seq<NodeRecord>>
    decreases node, 1nat, 0nat,
{
    match global_pose(node, tracks, parent, tick) {
        Some(global) => walk_children(
            node,
            0,
            tracks,
            global,
            tick,
            weight,
            written(map, node.name@, node.meshes@, global, weight),
        ),
        None => None,
    }
}

/// The node map after the children of `node` from position `from` on were walked in
/// order, under the global pose `parent` of `node`.
pub open spec fn walk_children(
    node: NodeData,
    from: nat,
    tracks: Seq<NodeAnimation>,
    parent: Pose,
    tick: i64,
    weight: i64,
    map: Seq<NodeRecord>,
) -> Option<Seq<NodeRecord>>
    decreases node, 0nat, node.children@.len() - from,
{
    if from >= node.children@.len() {
        Some(map)
    } else {
        match walk(node.children@[from as int], tracks, parent, tick, weight, map) {
            Some(after) => walk_children(node, from + 1, tracks, parent, tick, weight, after),
            None => None,
        }
    }
}

/// At most one track is the first for a name.
pub proof fn lemma_track_unique(tracks: Seq<NodeAnimation>, name: Seq<char>, i: int, j: int)
    requires
        is_track_of(tracks, name, i),
        is_track_of(tracks, name, j),
    ensures
        i == j,
{
    if i < j {
        assert(tracks[i].name@ != name);
    } else if j < i {
        assert(tracks[j].name@ != name);
    }
}

/// The first track authored for the node called `name`, by its position.
fn find_node_animation(node_animations: &Vec<NodeAnimation>, name: &String) -> (r: Option<usize>)
    ensures
        match r {
            Some(i) => is_track_of(node_animations@, name@, i as int) && track_of(
                node_animations@,
                name@,
            ) == i,
            None => !has_track(node_animations@, name@),
        },
{
    let mut i: usize = 0;
    while i < node_animations.len()
        invariant
            i <= node_animations@.len(),
            forall|j: int| 0 <= j < i ==> (#[trigger] node_animations@[j]).name@ != name@,
        decreases node_animations@.len() - i,
    {
        if node_animations[i].name == *name {
            proof {
                assert(is_track_of(node_animations@, name@, i as int));
                lemma_track_unique(
                    node_animations@,
                    name@,
                    i as int,
                    track_of(node_animations@, name@),
                );
            }
            return Some(i);
        }
        i = i + 1;
    }
    proof {
        if has_track(node_animations@, name@) {
            let k = track_of(node_animations@, name@);
            assert(node_animations@[k].name@ == name@);
        }
    }
    None
}

/// Computes the global pose of one node and writes it into the node map.
pub fn calculate_transform(
    node_data: &NodeData,
    node_animations: &Vec<NodeAnimation>,
    node_map: &mut NodeMap,
    parent_transform: &Pose,
    current_tick: i64,
    weight: i64,
) -> (r: Result<Pose, Error>)
    requires
        old(node_map).wf(),
    ensures
        final(node_map).wf(),
        match global_pose(*node_data, node_animations@, *parent_transform, current_tick) {
            Some(global) => r == Ok::<Pose, Error>(global) && final(node_map)@ == written(
                old(node_map)@,
                node_data.name@,
                node_data.meshes@,
                global,
                weight,
            ),
            None => r == Err::<Pose, Error>(Error::DataError) && final(node_map)@ == old(node_map)@,
        },
{
    let some_node_animation = find_node_animation(node_animations, &node_data.name);

    let global_transform = match some_node_animation {
        Some(i) => {
            let node_transform = node_animations[i].get_animation_transform(current_tick)?;
            parent_transform.clone().mul_transform(Pose::Sampled(node_transform))
        },
        None => parent_transform.clone().mul_transform(Pose::Fixed(node_data.transform)),
    };

    node_map.write(
        node_data.name.as_str(),
        &node_data.meshes,
        global_transform.clone(),
        weight,
    );

    Ok(global_transform)
}

/// Walks the hierarchy under `node_data` for one animation source, parents before
/// children, and writes every node's global pose into the node map: as it is where
/// the map has nothing for the node's name yet, blended at `weight` into what the map
/// holds where it has.
///
/// Fails with [`Error::DataError`] where the track of some node cannot be sampled at
/// `current_tick`; the map then holds what was written up to that node.
pub fn calculate_transform_maps(
    node_data: &NodeData,
    node_animations: &Vec<NodeAnimation>,
    node_map: &mut NodeMap,
    parent_transform: &Pose,
    current_tick: i64,
    weight: i64,
) -> (r: Result<(), Error>)
    requires
        old(node_map).wf(),
    ensures
        final(node_map).wf(),
        match walk(
            *node_data,
            node_animations@,
            *parent_transform,
            current_tick,
            weight,
            old(node_map)@,
        ) {
            Some(map) => r is Ok && final(node_map)@ == map,
            None => r == Err::<(), Error>(Error::DataError),
        },
    decreases *node_data,
{
    let global_transformation = calculate_transform(
        node_data,
        node_animations,
        node_map,
        parent_transform,
        current_tick,
        weight,
    )?;

    let ghost whole = walk(
        *node_data,
        node_animations@,
        *parent_transform,
        current_tick,
        weight,
        old(node_map)@,
    );
    let mut i: usize = 0;
    while i < node_data.children.len()
        invariant
            node_map.wf(),
            i <= node_data.children@.len(),
            whole == walk(
                *node_data,
                node_animations@,
                *parent_transform,
                current_tick,
                weight,
                old(node_map)@,
            ),
            walk_children(
                *node_data,
                i as nat,
                node_animations@,
                global_transformation,
                current_tick,
                weight,
                node_map@,
            ) == whole,
        decreases node_data.children@.len() - i,
    {
        let walked = calculate_transform_maps(
            &node_data.children[i],
            node_animations,
            node_map,
            &global_transformation,
            current_tick,
            weight,
        );
        match walked {
            Ok(()) => {},
            Err(e) => {
                return Err(e);
            },
        }
        i = i + 1;
    }
    Ok(())
}

/// The record `record` refers to the mesh with index `slot`.
pub open spec fn uses_mesh(record: NodeRecord, slot: int) -> bool {
    exists|j: int| 0 <= j < record.meshes.len() && #[trigger] record.meshes[j] == slot
}

/// The record `record` belongs to the bone with index `slot`.
pub open spec fn drives_bone(
    record: NodeRecord,
    table: Map<Seq<char>, BoneRecord>,
    slot: int,
) -> bool {
    table.contains_key(record.name) && table[record.name].bone_index == slot
}

/// What slot `slot` of the bone table holds after the poses of `records` were
/// extracted: the pose of the last record that belongs to the bone, composed with the
/// bone's inverse bind pose, or what the slot held before where there is no such
/// record.
pub open spec fn bone_slot_after(
    records: Seq<NodeRecord>,
    table: Map<Seq<char>, BoneRecord>,
    slot: int,
    before: Pose,
) -> Pose
    decreases records.len(),
{
    if records.len() == 0 {
        before
    } else if drives_bone(records.last(), table, slot) {
        Pose::Compose(
            Box::new(records.last().transform),
            Box::new(Pose::Fixed(table[records.last().name].offset_transform)),
        )
    } else {
        bone_slot_after(records.drop_last(), table, slot, before)
    }
}

/// What slot `slot` of the node table holds after the poses of `records` were
/// extracted: the pose of the last record that refers to the mesh, or what the slot
/// held before where there is no such record.
pub open spec fn node_slot_after(records: Seq<NodeRecord>, slot: int, before: Pose) -> Pose
    decreases records.len(),
{
    if records.len() == 0 {
        before
    } else if uses_mesh(records.last(), slot) {
        records.last().transform
    } else {
        node_slot_after(records.drop_last(), slot, before)
    }
}

/// Every mesh index in `records` is below `capacity`.
pub open spec fn records_fit(records: Seq<NodeRecord>, capacity: int) -> bool {
    forall|i: int, j: int|
        0 <= i < records.len() && 0 <= j < records[i].meshes.len() ==> (
        #[trigger] records[i].meshes[j]) < capacity
}

/// The two tables after the poses of `records` were extracted into them.
pub open spec fn poses_extracted(
    records: Seq<NodeRecord>,
    table: Map<Seq<char>, BoneRecord>,
    bones_before: Seq<Pose>,
    nodes_before: Seq<Pose>,
    bones_after: Seq<Pose>,
    nodes_after: Seq<Pose>,
) -> bool {
    &&& bones_after.len() == bones_before.len()
    &&& nodes_after.len() == nodes_before.len()
    &&& forall|slot: int|
        0 <= slot < bones_before.len() ==> #[trigger] bones_after[slot] == bone_slot_after(
            records,
            table,
            slot,
            bones_before[slot],
        )
    &&& forall|slot: int|
        0 <= slot < nodes_before.len() ==> #[trigger] nodes_after[slot] == node_slot_after(
            records,
            slot,
            nodes_before[slot],
        )
}

/// Writes the poses of the node map into the two output tables: for every entry whose
/// name is a bone's, the bone's slot gets the entry's pose composed with the bone's
/// inverse bind pose; for every mesh that the entry refers to, the mesh's slot gets
/// the entry's pose. Entries are taken in the order in which their names were first
/// written.
fn extract_final_transforms(
    node_map: &NodeMap,
    table: &BoneTable,
    final_bones: &mut Vec<Pose>,
    final_nodes: &mut Vec<Pose>,
)
    requires
        node_map.wf(),
        table.wf(),
        bones_fit(table@, old(final_bones)@.len() as int),
        records_fit(node_map@, old(final_nodes)@.len() as int),
    ensures
        poses_extracted(
            node_map@,
            table@,
            old(final_bones)@,
            old(final_nodes)@,
            final(final_bones)@,
            final(final_nodes)@,
        ),
{
    let n = node_map.len();
    let ghost records = node_map@;
    let mut i: usize = 0;
    assert(records.take(0) =~= Seq::<NodeRecord>::empty());
    while i < n
        invariant
            node_map.wf(),
            table.wf(),
            records == node_map@,
            n == records.len(),
            i <= n,
            bones_fit(table@, old(final_bones)@.len() as int),
            records_fit(records, old(final_nodes)@.len() as int),
            poses_extracted(
                records.take(i as int),
                table@,
                old(final_bones)@,
                old(final_nodes)@,
                final_bones@,
                final_nodes@,
            ),
        decreases n - i,
    {
        let name = node_map.name_at(i);
        let entry = node_map.entry_at(i);
        let ghost upto = records.take(i as int);
        let ghost next = records.take(i + 1);
        let ghost record = records[i as int];
        proof {
            assert(next.drop_last() =~= upto);
            assert(next.last() == record);
        }
        let ghost bones_mid = final_bones@;
        match table.get(name.as_str()) {
            Some(bone_data) => {
                assert(table@.contains_key(record.name));
                let index = bone_data.bone_index as usize;
                let transform_matrix = entry.transform.clone().mul_transform(
                    Pose::Fixed(bone_data.offset_transform),
                );
                final_bones.set(index, transform_matrix);
            },
            None => {},
        }
        proof {
            assert forall|slot: int|
                0 <= slot < old(final_bones)@.len() implies #[trigger] final_bones@[slot]
                == bone_slot_after(next, table@, slot, old(final_bones)@[slot]) by {
                assert(bones_mid[slot] == bone_slot_after(
                    upto,
                    table@,
                    slot,
                    old(final_bones)@[slot],
                ));
            }
        }
        let ghost nodes_mid = final_nodes@;
        let mut j: usize = 0;
        while j < entry.meshes.len()
            invariant
                j <= entry.meshes@.len(),
                entry.meshes@ == record.meshes,
                entry.transform == record.transform,
                final_nodes@.len() == old(final_nodes)@.len(),
                nodes_mid.len() == old(final_nodes)@.len(),
                forall|k: int|
                    0 <= k < record.meshes.len() ==> (#[trigger] record.meshes[k])
                        < old(final_nodes)@.len(),
                forall|slot: int|
                    0 <= slot < final_nodes@.len() ==> #[trigger] final_nodes@[slot] == (if exists|
                        k: int,
                    |
                        0 <= k < j && #[trigger] record.meshes[k] == slot {
                        record.transform
                    } else {
                        nodes_mid[slot]
                    }),
            decreases entry.meshes@.len() - j,
        {
            let mesh_index = entry.meshes[j] as usize;
            let ghost nodes_here = final_nodes@;
            final_nodes.set(mesh_index, entry.transform.clone());
            proof {
                assert forall|slot: int|
                    0 <= slot < final_nodes@.len() implies #[trigger] final_nodes@[slot]
                    == (if exists|k: int| 0 <= k < j + 1 && #[trigger] record.meshes[k] == slot {
                    record.transform
                } else {
                    nodes_mid[slot]
                }) by {
                    if slot == mesh_index {
                        assert(record.meshes[j as int] == slot);
                    } else {
                        assert(final_nodes@[slot] == nodes_here[slot]);
                        if exists|k: int| 0 <= k < j + 1 && #[trigger] record.meshes[k] == slot {
                            let k = choose|k: int|
                                0 <= k < j + 1 && #[trigger] record.meshes[k] == slot;
                            assert(k < j);
                        }
                    }
                }
            }
            j = j + 1;
        }
        proof {
            assert forall|slot: int|
                0 <= slot < old(final_nodes)@.len() implies #[trigger] final_nodes@[slot]
                == node_slot_after(next, slot, old(final_nodes)@[slot]) by {
                assert(nodes_mid[slot] == node_slot_after(upto, slot, old(final_nodes)@[slot]));
                if uses_mesh(record, slot) {
                    let k = choose|k: int|
                        0 <= k < record.meshes.len() && #[trigger] record.meshes[k] == slot;
                    assert(0 <= k < j && record.meshes[k] == slot);
                }
            }
        }
        i = i + 1;
    }
    assert(records.take(n as int) =~= records);
}

/// Writing a node whose mesh indices are below `capacity` keeps every mesh index of
/// the map below it.
pub proof fn lemma_written_fits(
    map: Seq<NodeRecord>,
    name: Seq<char>,
    meshes: Seq<u32>,
    global: Pose,
    weight: i64,
    capacity: int,
)
    requires
        records_fit(map, capacity),
        forall|j: int| 0 <= j < meshes.len() ==> (#[trigger] meshes[j]) < capacity,
    ensures
        records_fit(written(map, name, meshes, global, weight), capacity),
{
    let after = written(map, name, meshes, global, weight);
    assert forall|i: int, j: int|
        0 <= i < after.len() && 0 <= j < after[i].meshes.len() implies (
    #[trigger] after[i].meshes[j]) < capacity by {
        if i < map.len() {
            assert(after[i].meshes == map[i].meshes);
            assert(map[i].meshes[j] < capacity);
        }
    }
}

/// Walking a hierarchy whose mesh indices are below `capacity` keeps every mesh index
/// of the map below it.
pub proof fn lemma_walk_fits(
    node: NodeData,
    tracks: Seq<NodeAnimation>,
    parent: Pose,
    tick: i64,
    weight: i64,
    map: Seq<NodeRecord>,
    capacity: int,
)
    requires
        meshes_fit(node, capacity),
        records_fit(map, capacity),
    ensures
        walk(node, tracks, parent, tick, weight, map) matches Some(after) ==> records_fit(
            after,
            capacity,
        ),
    decreases node, 1nat, 0nat,
{
    match global_pose(node, tracks, parent, tick) {
        Some(global) => {
            lemma_written_fits(map, node.name@, node.meshes@, global, weight, capacity);
            lemma_walk_children_fit(
                node,
                0,
                tracks,
                global,
                tick,
                weight,
                written(map, node.name@, node.meshes@, global, weight),
                capacity,
            );
        },
        None => {},
    }
}

/// [`lemma_walk_fits`], for the children of `node` from position `from` on.
pub proof fn lemma_walk_children_fit(
    node: NodeData,
    from: nat,
    tracks: Seq<NodeAnimation>,
    parent: Pose,
    tick: i64,
    weight: i64,
    map: Seq<NodeRecord>,
    capacity: int,
)
    requires
        meshes_fit(node, capacity),
        records_fit(map, capacity),
    ensures
        walk_children(node, from, tracks, parent, tick, weight, map) matches Some(after)
            ==> records_fit(after, capacity),
    decreases node, 0nat, node.children@.len() - from,
{
    if from < node.children@.len() {
        let child = node.children@[from as int];
        assert(meshes_fit(child, capacity));
        lemma_walk_fits(child, tracks, parent, tick, weight, map, capacity);
        match walk(child, tracks, parent, tick, weight, map) {
            Some(after) => {
                lemma_walk_children_fit(
                    node,
                    from + 1,
                    tracks,
                    parent,
                    tick,
                    weight,
                    after,
                    capacity,
                );
            },
            None => {},
        }
    }
}

/// The node map after the hierarchy was walked once more for each of `transitions`,
/// in their order, each at its own tick and weight.
pub open spec fn blend_transitions(
    root: NodeData,
    tracks: Seq<NodeAnimation>,
    base: Pose,
    transitions: Seq<AnimationTransition>,
    map: Seq<NodeRecord>,
) -> Option<Seq<NodeRecord>>
    decreases transitions.len(),
{
    if transitions.len() == 0 {
        Some(map)
    } else {
        match blend_transitions(root, tracks, base, transitions.drop_last(), map) {
            Some(before) => walk(
                root,
                tracks,
                base,
                transitions.last().animation.current_tick,
                transitions.last().current_weight,
                before,
            ),
            None => None,
        }
    }
}

/// The node map of one frame: the hierarchy walked for the current animation at full
/// weight, then for each transition at its weight.
pub open spec fn frame_map(
    root: NodeData,
    tracks: Seq<NodeAnimation>,
    base: Pose,
    current_tick: i64,
    transitions: Seq<AnimationTransition>,
) -> Option<Seq<NodeRecord>> {
    match walk(root, tracks, base, current_tick, FULL_WEIGHT, Seq::empty()) {
        Some(map) => blend_transitions(root, tracks, base, transitions, map),
        None => None,
    }
}

/// Each of `transitions` with its playhead moved on by `delta_time`.
pub open spec fn stepped_all(transitions: Seq<AnimationTransition>, delta_time: i64) -> Seq<
    AnimationTransition,
> {
    Seq::new(transitions.len(), |i: int| transitions[i].stepped(delta_time))
}

/// Where the walks for the first `k` transitions fail, so do the walks for all.
pub proof fn lemma_blend_transitions_prefix(
    root: NodeData,
    tracks: Seq<NodeAnimation>,
    base: Pose,
    transitions: Seq<AnimationTransition>,
    map: Seq<NodeRecord>,
    k: int,
)
    requires
        0 <= k <= transitions.len(),
        blend_transitions(root, tracks, base, transitions.take(k), map) is None,
    ensures
        blend_transitions(root, tracks, base, transitions, map) is None,
    decreases transitions.len() - k,
{
    if k < transitions.len() {
        assert(transitions.take(k + 1).drop_last() =~= transitions.take(k));
        lemma_blend_transitions_prefix(root, tracks, base, transitions, map, k + 1);
    } else {
        assert(transitions.take(k) =~= transitions);
    }
}

/// The walks for transitions keep every mesh index of the map below `capacity`.
pub proof fn lemma_blend_transitions_fit(
    root: NodeData,
    tracks: Seq<NodeAnimation>,
    base: Pose,
    transitions: Seq<AnimationTransition>,
    map: Seq<NodeRecord>,
    capacity: int,
)
    requires
        meshes_fit(root, capacity),
        records_fit(map, capacity),
    ensures
        blend_transitions(root, tracks, base, transitions, map) matches Some(after)
            ==> records_fit(after, capacity),
    decreases transitions.len(),
{
    if transitions.len() > 0 {
        lemma_blend_transitions_fit(root, tracks, base, transitions.drop_last(), map, capacity);
        match blend_transitions(root, tracks, base, transitions.drop_last(), map) {
            Some(before) => {
                lemma_walk_fits(
                    root,
                    tracks,
                    base,
                    transitions.last().animation.current_tick,
                    transitions.last().current_weight,
                    before,
                    capacity,
                );
            },
            None => {},
        }
    }
}

/// Where the walks for the first `k` entries fail, so do the walks for all.
pub proof fn lemma_blend_weighted_prefix(
    root: NodeData,
    tracks: Seq<NodeAnimation>,
    base: Pose,
    list: Seq<WeightedAnimation>,
    ticks_per_second: i64,
    frame_time: i64,
    map: Seq<NodeRecord>,
    k: int,
)
    requires
        0 <= k <= list.len(),
        blend_weighted(root, tracks, base, list.take(k), ticks_per_second, frame_time, map)
            is None,
    ensures
        blend_weighted(root, tracks, base, list, ticks_per_second, frame_time, map) is None,
    decreases list.len() - k,
{
    if k < list.len() {
        assert(list.take(k + 1).drop_last() =~= list.take(k));
        lemma_blend_weighted_prefix(
            root,
            tracks,
            base,
            list,
            ticks_per_second,
            frame_time,
            map,
            k + 1,
        );
    } else {
        assert(list.take(k) =~= list);
    }
}

/// The walks for weighted entries keep every mesh index of the map below `capacity`.
pub proof fn lemma_blend_weighted_fit(
    root: NodeData,
    tracks: Seq<NodeAnimation>,
    base: Pose,
    list: Seq<WeightedAnimation>,
    ticks_per_second: i64,
    frame_time: i64,
    map: Seq<NodeRecord>,
    capacity: int,
)
    requires
        meshes_fit(root, capacity),
        records_fit(map, capacity),
    ensures
        blend_weighted(root, tracks, base, list, ticks_per_second, frame_time, map) matches Some(
            after,
        ) ==> records_fit(after, capacity),
    decreases list.len(),
{
    if list.len() > 0 {
        lemma_blend_weighted_fit(
            root,
            tracks,
            base,
            list.drop_last(),
            ticks_per_second,
            frame_time,
            map,
            capacity,
        );
        match blend_weighted(
            root,
            tracks,
            base,
            list.drop_last(),
            ticks_per_second,
            frame_time,
            map,
        ) {
            Some(before) => {
                match list.last().target_tick(ticks_per_second, frame_time) {
                    Some(tick) => {
                        lemma_walk_fits(
                            root,
                            tracks,
                            base,
                            tick,
                            list.last().weight,
                            before,
                            capacity,
                        );
                    },
                    None => {},
                }
            },
            None => {},
        }
    }
}

/// Moves the playhead of every transition on by `delta_time`.
fn step_transitions(transitions: &mut Vec<AnimationTransition>, delta_time: i64)
    ensures
        final(transitions)@ == stepped_all(old(transitions)@, delta_time),
{
    let mut i: usize = 0;
    while i < transitions.len()
        invariant
            i <= transitions@.len(),
            transitions@.len() == old(transitions)@.len(),
            forall|k: int|
                0 <= k < i ==> #[trigger] transitions@[k] == old(transitions)@[k].stepped(
                    delta_time,
                ),
            forall|k: int|
                i <= k < transitions@.len() ==> #[trigger] transitions@[k] == old(transitions)@[k],
        decreases transitions@.len() - i,
    {
        let mut transition = transitions[i];
        transition.animation.update(delta_time);
        transitions.set(i, transition);
        i = i + 1;
    }
    assert(transitions@ =~= stepped_all(old(transitions)@, delta_time));
}

/// Walks the hierarchy once for each transition, in their order, at its tick and
/// weight.
fn blend_transition_poses(
    root: &NodeData,
    node_animations: &Vec<NodeAnimation>,
    node_map: &mut NodeMap,
    base: &Pose,
    transitions: &Vec<AnimationTransition>,
) -> (r: Result<(), Error>)
    requires
        old(node_map).wf(),
    ensures
        final(node_map).wf(),
        match blend_transitions(*root, node_animations@, *base, transitions@, old(node_map)@) {
            Some(map) => r is Ok && final(node_map)@ == map,
            None => r == Err::<(), Error>(Error::DataError),
        },
{
    let mut i: usize = 0;
    assert(transitions@.take(0) =~= Seq::<AnimationTransition>::empty());
    while i < transitions.len()
        invariant
            node_map.wf(),
            i <= transitions@.len(),
            blend_transitions(
                *root,
                node_animations@,
                *base,
                transitions@.take(i as int),
                old(node_map)@,
            ) == Some(node_map@),
        decreases transitions@.len() - i,
    {
        proof {
            assert(transitions@.take(i + 1).drop_last() =~= transitions@.take(i as int));
            assert(transitions@.take(i + 1).last() == transitions@[i as int]);
        }
        let walked = calculate_transform_maps(
            root,
            node_animations,
            node_map,
            base,
            transitions[i].animation.current_tick,
            transitions[i].current_weight,
        );
        match walked {
            Ok(()) => {},
            Err(e) => {
                proof {
                    lemma_blend_transitions_prefix(
                        *root,
                        node_animations@,
                        *base,
                        transitions@,
                        old(node_map)@,
                        i + 1,
                    );
                }
                return Err(e);
            },
        }
        i = i + 1;
    }
    assert(transitions@.take(i as int) =~= transitions@);
    Ok(())
}

/// Walks the hierarchy once for each entry that counts, in their order, at its tick
/// and weight.
fn blend_weighted_poses(
    root: &NodeData,
    node_animations: &Vec<NodeAnimation>,
    node_map: &mut NodeMap,
    base: &Pose,
    weighted_animation: &Vec<WeightedAnimation>,
    ticks_per_second: i64,
    frame_time: i64,
) -> (r: Result<(), Error>)
    requires
        old(node_map).wf(),
    ensures
        final(node_map).wf(),
        match blend_weighted(
            *root,
            node_animations@,
            *base,
            weighted_animation@,
            ticks_per_second,
            frame_time,
            old(node_map)@,
        ) {
            Some(map) => r is Ok && final(node_map)@ == map,
            None => r == Err::<(), Error>(Error::DataError),
        },
{
    let mut i: usize = 0;
    assert(weighted_animation@.take(0) =~= Seq::<WeightedAnimation>::empty());
    while i < weighted_animation.len()
        invariant
            node_map.wf(),
            i <= weighted_animation@.len(),
            blend_weighted(
                *root,
                node_animations@,
                *base,
                weighted_animation@.take(i as int),
                ticks_per_second,
                frame_time,
                old(node_map)@,
            ) == Some(node_map@),
        decreases weighted_animation@.len() - i,
    {
        proof {
            assert(weighted_animation@.take(i + 1).drop_last() =~= weighted_animation@.take(
                i as int,
            ));
            assert(weighted_animation@.take(i + 1).last() == weighted_animation@[i as int]);
        }
        let weighted = weighted_animation[i];
        if weighted.weight > 0 {
            match weighted.target(ticks_per_second, frame_time) {
                Some(target_anim_ticks) => {
                    let walked = calculate_transform_maps(
                        root,
                        node_animations,
                        node_map,
                        base,
                        target_anim_ticks,
                        weighted.weight,
                    );
                    match walked {
                        Ok(()) => {},
                        Err(e) => {
                            proof {
                                lemma_blend_weighted_prefix(
                                    *root,
                                    node_animations@,
                                    *base,
                                    weighted_animation@,
                                    ticks_per_second,
                                    frame_time,
                                    old(node_map)@,
                                    i + 1,
                                );
                            }
                            return Err(e);
                        },
                    }
                },
                None => {},
            }
        }
        i = i + 1;
    }
    assert(weighted_animation@.take(i as int) =~= weighted_animation@);
    Ok(())
}

/// The position of the first entry that counts and has no tick to be sampled at.
fn find_invalid(
    weighted_animation: &Vec<WeightedAnimation>,
    ticks_per_second: i64,
    frame_time: i64,
) -> (r: Option<usize>)
    ensures
        match r {
            Some(i) => is_first_invalid(
                weighted_animation@,
                ticks_per_second,
                frame_time,
                i as int,
            ),
            None => all_valid(weighted_animation@, ticks_per_second, frame_time),
        },
{
    let mut i: usize = 0;
    while i < weighted_animation.len()
        invariant
            i <= weighted_animation@.len(),
            forall|j: int|
                0 <= j < i ==> !((#[trigger] weighted_animation@[j]).weight > 0
                    && weighted_animation@[j].target_tick(ticks_per_second, frame_time) is None),
        decreases weighted_animation@.len() - i,
    {
        let weighted = weighted_animation[i];
        if weighted.weight > 0 && weighted.target(ticks_per_second, frame_time).is_none() {
            return Some(i);
        }
        i = i + 1;
    }
    None
}

/// The animator of one model: the static hierarchy and bones, the playhead of the
/// current animation, the animations that are fading out, and the poses of the last
/// frame.
pub struct Animator {
    pub root_node: NodeData,
    pub global_inverse_transform: Transform,
    pub bone_data_map: BoneTable,
    pub model_animation: ModelAnimation,
    pub current_animation: PlayingAnimation,
    pub transitions: Vec<AnimationTransition>,
    /// The node map of the last frame.
    pub node_transforms: NodeMap,
    /// The skinning pose of each bone, by bone index.
    pub final_bone_matrices: Vec<Pose>,
    /// The pose of each mesh that hangs on a node, by mesh index.
    pub final_node_matrices: Vec<Pose>,
}

impl Animator {
    /// The tables have their sizes, and every bone and mesh index has its slot.
    pub open spec fn wf(&self) -> bool {
        &&& self.bone_data_map.wf()
        &&& self.node_transforms.wf()
        &&& bones_fit(self.bone_data_map@, BONE_CAPACITY as int)
        &&& meshes_fit(self.root_node, NODE_CAPACITY as int)
        &&& records_fit(self.node_transforms@, NODE_CAPACITY as int)
        &&& self.final_bone_matrices@.len() == BONE_CAPACITY
        &&& self.final_node_matrices@.len() == NODE_CAPACITY
    }

    /// The pose under which the root of the hierarchy stands.
    pub open spec fn base(&self) -> Pose {
        Pose::Fixed(self.global_inverse_transform)
    }

    /// The two animators are of the same model.
    pub open spec fn same_model(&self, other: &Animator) -> bool {
        &&& self.root_node == other.root_node
        &&& self.global_inverse_transform == other.global_inverse_transform
        &&& self.bone_data_map == other.bone_data_map
        &&& self.model_animation == other.model_animation
    }

    /// The two animators hold the same poses.
    pub open spec fn same_poses(&self, other: &Animator) -> bool {
        &&& self.final_bone_matrices@ == other.final_bone_matrices@
        &&& self.final_node_matrices@ == other.final_node_matrices@
    }

    /// The two tables hold the poses of `records`, extracted over what the tables of
    /// `before` held.
    pub open spec fn poses_from(&self, records: Seq<NodeRecord>, before: &Animator) -> bool {
        poses_extracted(
            records,
            before.bone_data_map@,
            before.final_bone_matrices@,
            before.final_node_matrices@,
            self.final_bone_matrices@,
            self.final_node_matrices@,
        )
    }

    /// The node map of a frame where the playheads stand: the hierarchy walked for the
    /// current animation at full weight, then for each transition at its weight.
    pub open spec fn playing_map(&self) -> Option<Seq<NodeRecord>> {
        frame_map(
            self.root_node,
            self.model_animation.node_animations@,
            self.base(),
            self.current_animation.current_tick,
            self.transitions@,
        )
    }

    /// Every entry of `list` that counts has a tick to be sampled at, at `frame_time`.
    pub open spec fn accepts(&self, list: Seq<WeightedAnimation>, frame_time: i64) -> bool {
        all_valid(list, self.model_animation.ticks_per_second, frame_time)
    }

    /// The node map of a frame of weighted clips at `frame_time`.
    pub open spec fn weighted_map(&self, list: Seq<WeightedAnimation>, frame_time: i64) -> Option<
        Seq<NodeRecord>,
    > {
        blend_weighted(
            self.root_node,
            self.model_animation.node_animations@,
            self.base(),
            list,
            self.model_animation.ticks_per_second,
            frame_time,
            Seq::empty(),
        )
    }

    /// An animator for the given hierarchy, bones and animation. It plays the whole
    /// animation, forever, from an unstarted playhead, and all its poses are the
    /// identity.
    ///
    /// Fails with [`Error::Precondition`] exactly where some bone's index is not below
    /// [`BONE_CAPACITY`] or some mesh index of the hierarchy not below
    /// [`NODE_CAPACITY`].
    pub fn new(
        root_node: NodeData,
        global_inverse_transform: Transform,
        bone_data_map: BoneTable,
        model_animation: ModelAnimation,
    ) -> (r: Result<Animator, Error>)
        requires
            bone_data_map.wf(),
        ensures
            match r {
                Ok(animator) => {
                    &&& bones_fit(bone_data_map@, BONE_CAPACITY as int)
                    &&& meshes_fit(root_node, NODE_CAPACITY as int)
                    &&& animator.wf()
                    &&& animator.root_node == root_node
                    &&& animator.global_inverse_transform == global_inverse_transform
                    &&& animator.bone_data_map == bone_data_map
                    &&& animator.model_animation == model_animation
                    &&& animator.current_animation == PlayingAnimation::unstarted(
                        AnimationClip {
                            start_tick: 0,
                            end_tick: model_animation.duration,
                            repeat: AnimationRepeat::Forever,
                        },
                        model_animation.ticks_per_second,
                    )
                    &&& animator.transitions@.len() == 0
                    &&& animator.node_transforms@.len() == 0
                    &&& forall|i: int|
                        0 <= i < BONE_CAPACITY ==> #[trigger] animator.final_bone_matrices@[i]
                            == Pose::Fixed(Transform::identity())
                    &&& forall|i: int|
                        0 <= i < NODE_CAPACITY ==> #[trigger] animator.final_node_matrices@[i]
                            == Pose::Fixed(Transform::identity())
                },
                Err(e) => e == Error::Precondition && !(bones_fit(
                    bone_data_map@,
                    BONE_CAPACITY as int,
                ) && meshes_fit(root_node, NODE_CAPACITY as int)),
            },
    {
        if !bone_data_map.fits(BONE_CAPACITY) || !root_node.meshes_within(NODE_CAPACITY as u32) {
            return Err(Error::Precondition);
        }
        let mut final_bone_matrices: Vec<Pose> = Vec::new();
        let mut final_node_matrices: Vec<Pose> = Vec::new();
        let mut i: usize = 0;
        while i < BONE_CAPACITY
            invariant
                i <= BONE_CAPACITY,
                final_bone_matrices@.len() == i,
                final_node_matrices@.len() == (if i < NODE_CAPACITY {
                    i
                } else {
                    NODE_CAPACITY
                }),
                forall|k: int|
                    0 <= k < final_bone_matrices@.len() ==> #[trigger] final_bone_matrices@[k]
                        == Pose::Fixed(Transform::identity()),
                forall|k: int|
                    0 <= k < final_node_matrices@.len() ==> #[trigger] final_node_matrices@[k]
                        == Pose::Fixed(Transform::identity()),
            decreases BONE_CAPACITY - i,
        {
            final_bone_matrices.push(Pose::Fixed(Transform::identity()));
            if i < NODE_CAPACITY {
                final_node_matrices.push(Pose::Fixed(Transform::identity()));
            }
            i = i + 1;
        }

        let animation_clip = AnimationClip {
            start_tick: 0,
            end_tick: model_animation.duration,
            repeat: AnimationRepeat::Forever,
        };

        let current_animation = PlayingAnimation {
            animation_clip,
            current_tick: -1,
            ticks_per_second: model_animation.ticks_per_second,
            repeat_completions: 0,
        };

        Ok(
            Animator {
                root_node,
                global_inverse_transform,
                bone_data_map,
                model_animation,
                current_animation,
                transitions: Vec::new(),
                node_transforms: NodeMap::new(),
                final_bone_matrices,
                final_node_matrices,
            },
        )
    }

    /// Cuts over to `clip`: the current animation is replaced by an unstarted playhead
    /// for it. Nothing else changes.
    pub fn play_clip(&mut self, clip: &AnimationClip)
        ensures
            final(self).current_animation == PlayingAnimation::unstarted(
                *clip,
                old(self).model_animation.ticks_per_second,
            ),
            final(self).same_model(old(self)),
            final(self).same_poses(old(self)),
            final(self).transitions@ == old(self).transitions@,
            final(self).node_transforms == old(self).node_transforms,
            old(self).wf() ==> final(self).wf(),
    {
        self.current_animation = PlayingAnimation {
            animation_clip: *clip,
            current_tick: -1,
            ticks_per_second: self.model_animation.ticks_per_second,
            repeat_completions: 0,
        }
    }

    /// Fades over to `clip` in `transition_duration` microseconds: the current
    /// animation becomes an unstarted playhead for the clip, and what was current
    /// joins the transitions at full weight. Nothing else changes.
    pub fn play_clip_with_transition(&mut self, clip: &AnimationClip, transition_duration: u64)
        ensures
            final(self).current_animation == PlayingAnimation::unstarted(
                *clip,
                old(self).model_animation.ticks_per_second,
            ),
            final(self).current_animation.is_unstarted(),
            final(self).transitions@ == old(self).transitions@.push(
                AnimationTransition {
                    current_weight: FULL_WEIGHT,
                    weight_decline_per_sec: decline_for(transition_duration),
                    animation: old(self).current_animation,
                },
            ),
            final(self).same_model(old(self)),
            final(self).same_poses(old(self)),
            final(self).node_transforms == old(self).node_transforms,
            old(self).wf() ==> final(self).wf(),
    {
        let animation = self.current_animation;
        self.current_animation = PlayingAnimation {
            animation_clip: *clip,
            current_tick: -1,
            ticks_per_second: self.model_animation.ticks_per_second,
            repeat_completions: 0,
        };

        let transition = AnimationTransition {
            current_weight: FULL_WEIGHT,
            weight_decline_per_sec: decline_rate(transition_duration),
            animation,
        };

        self.transitions.push(transition);
    }

    /// Ages every transition by `delta_time` and drops those that have faded out.
    pub fn update_transitions(&mut self, delta_time: i64)
        ensures
            old(self).wf() ==> final(self).wf(),
            final(self).transitions@ == surviving(old(self).transitions@, delta_time),
            final(self).current_animation == old(self).current_animation,
            final(self).same_model(old(self)),
            final(self).same_poses(old(self)),
            final(self).node_transforms == old(self).node_transforms,
    {
        let mut kept: Vec<AnimationTransition> = Vec::new();
        let mut i: usize = 0;
        assert(self.transitions@.take(0) =~= Seq::<AnimationTransition>::empty());
        while i < self.transitions.len()
            invariant
                *self == *old(self),
                i <= self.transitions@.len(),
                kept@ == surviving(self.transitions@.take(i as int), delta_time),
            decreases self.transitions@.len() - i,
        {
            let mut animation = self.transitions[i];
            proof {
                assert(self.transitions@.take(i + 1).drop_last() =~= self.transitions@.take(
                    i as int,
                ));
                assert(self.transitions@.take(i + 1).last() == animation);
            }
            animation.current_weight = clip_i128(
                mul_sub(animation.current_weight, animation.weight_decline_per_sec, delta_time),
            );
            if animation.current_weight > 0 {
                kept.push(animation);
            }
            i = i + 1;
        }
        assert(self.transitions@.take(i as int) =~= self.transitions@);
        self.transitions = kept;
    }
    /// Rebuilds the node map: moves the playhead of every transition on by
    /// `delta_time`, then walks the hierarchy for the current animation at full weight
    /// and once more for each transition at its weight. Where a track cannot be
    /// sampled the map is left empty.
    pub fn update_node_map(&mut self, delta_time: i64) -> (r: Result<(), Error>)
        requires
            old(self).wf(),
        ensures
            final(self).wf(),
            final(self).same_model(old(self)),
            final(self).same_poses(old(self)),
            final(self).current_animation == old(self).current_animation,
            final(self).transitions@ == stepped_all(old(self).transitions@, delta_time),
            match final(self).playing_map() {
                Some(map) => r is Ok && final(self).node_transforms@ == map,
                None => r == Err::<(), Error>(Error::DataError)
                    && final(self).node_transforms@.len() == 0,
            },
    {
        self.node_transforms.clear();
        step_transitions(&mut self.transitions, delta_time);

        let inverse_transform = Pose::Fixed(self.global_inverse_transform);

        // First for current animation at full weight
        let walked = calculate_transform_maps(
            &self.root_node,
            &self.model_animation.node_animations,
            &mut self.node_transforms,
            &inverse_transform,
            self.current_animation.current_tick,
            FULL_WEIGHT,
        );
        let ghost first = self.node_transforms@;
        let blended = match walked {
            Ok(()) => blend_transition_poses(
                &self.root_node,
                &self.model_animation.node_animations,
                &mut self.node_transforms,
                &inverse_transform,
                &self.transitions,
            ),
            Err(e) => Err(e),
        };
        match blended {
            Ok(()) => {
                proof {
                    assert(records_fit(Seq::<NodeRecord>::empty(), NODE_CAPACITY as int));
                    lemma_walk_fits(
                        self.root_node,
                        self.model_animation.node_animations@,
                        inverse_transform,
                        self.current_animation.current_tick,
                        FULL_WEIGHT,
                        Seq::empty(),
                        NODE_CAPACITY as int,
                    );
                    lemma_blend_transitions_fit(
                        self.root_node,
                        self.model_animation.node_animations@,
                        inverse_transform,
                        self.transitions@,
                        first,
                        NODE_CAPACITY as int,
                    );
                }
                Ok(())
            },
            Err(e) => {
                self.node_transforms.clear();
                Err(e)
            },
        }
    }

    /// Writes the poses of the node map into the two output tables.
    pub fn update_final_transforms(&mut self)
        requires
            old(self).wf(),
        ensures
            final(self).wf(),
            final(self).same_model(old(self)),
            final(self).current_animation == old(self).current_animation,
            final(self).transitions@ == old(self).transitions@,
            final(self).node_transforms == old(self).node_transforms,
            final(self).poses_from(old(self).node_transforms@, old(self)),
    {
        extract_final_transforms(
            &self.node_transforms,
            &self.bone_data_map,
            &mut self.final_bone_matrices,
            &mut self.final_node_matrices,
        );
    }

    /// Computes the poses of the next frame, `delta_time` microseconds after the last:
    /// moves the current playhead on, ages the transitions and drops those that have
    /// faded out, rebuilds the node map from the current animation at full weight and
    /// the transitions that are left at theirs, and extracts the poses.
    ///
    /// Fails with [`Error::DataError`] where some track cannot be sampled at the tick
    /// of the current animation or of a transition. The playheads have then moved, the
    /// node map is empty and the poses are those of the last frame.
    pub fn update_animation(&mut self, delta_time: i64) -> (r: Result<(), Error>)
        requires
            old(self).wf(),
        ensures
            final(self).wf(),
            final(self).same_model(old(self)),
            final(self).current_animation == old(self).current_animation.advanced(delta_time),
            final(self).transitions@ == stepped_all(
                surviving(old(self).transitions@, delta_time),
                delta_time,
            ),
            final(self).transitions@ == aged_through(old(self).transitions@, seq![delta_time]),
            match final(self).playing_map() {
                Some(map) => r is Ok && final(self).node_transforms@ == map
                    && final(self).poses_from(map, old(self)),
                None => r == Err::<(), Error>(Error::DataError) && final(self).same_poses(
                    old(self),
                ) && final(self).node_transforms@.len() == 0,
            },
    {
        proof {
            lemma_one_frame(self.transitions@, delta_time);
        }
        self.current_animation.update(delta_time);
        self.update_transitions(delta_time);
        match self.update_node_map(delta_time) {
            Ok(()) => {},
            Err(e) => {
                return Err(e);
            },
        }
        self.update_final_transforms();
        Ok(())
    }

    /// Computes the poses of a frame from a list of weighted clips, past the current
    /// animation and the transitions, which stay as they are. Each entry with a
    /// positive weight is sampled at its own tick for `frame_time` and folded into the
    /// node map at its weight, in the order of the list; then the poses are extracted.
    ///
    /// An entry that counts and whose tick lies outside its clip is rejected: it is
    /// left out of the frame, which goes on with the other entries, and the call
    /// reports [`Error::ConfigError`] with the position of the first such entry.
    /// Fails with [`Error::DataError`] where some track cannot be sampled at the tick of
    /// an entry; the node map is then empty and the poses are as they were.
    pub fn play_weight_animations(
        &mut self,
        weighted_animation: &Vec<WeightedAnimation>,
        frame_time: i64,
    ) -> (r: Result<(), Error>)
        requires
            old(self).wf(),
        ensures
            final(self).wf(),
            final(self).same_model(old(self)),
            final(self).current_animation == old(self).current_animation,
            final(self).transitions@ == old(self).transitions@,
            match old(self).weighted_map(weighted_animation@, frame_time) {
                Some(map) => {
                    &&& final(self).node_transforms@ == map
                    &&& final(self).poses_from(map, old(self))
                    &&& old(self).accepts(weighted_animation@, frame_time) ==> r is Ok
                    &&& !old(self).accepts(weighted_animation@, frame_time) ==> (r matches Err(
                        Error::ConfigError(i),
                    ) && is_first_invalid(
                        weighted_animation@,
                        old(self).model_animation.ticks_per_second,
                        frame_time,
                        i as int,
                    ))
                },
                None => r == Err::<(), Error>(Error::DataError) && final(self).same_poses(
                    old(self),
                ) && final(self).node_transforms@.len() == 0,
            },
    {
        let ticks_per_second = self.model_animation.ticks_per_second;
        let rejected = find_invalid(weighted_animation, ticks_per_second, frame_time);

        // reset node transforms
        self.node_transforms.clear();

        let inverse_transform = Pose::Fixed(self.global_inverse_transform);
        let blended = blend_weighted_poses(
            &self.root_node,
            &self.model_animation.node_animations,
            &mut self.node_transforms,
            &inverse_transform,
            weighted_animation,
            ticks_per_second,
            frame_time,
        );
        match blended {
            Ok(()) => {
                proof {
                    assert(records_fit(Seq::<NodeRecord>::empty(), NODE_CAPACITY as int));
                    lemma_blend_weighted_fit(
                        self.root_node,
                        self.model_animation.node_animations@,
                        inverse_transform,
                        weighted_animation@,
                        ticks_per_second,
                        frame_time,
                        Seq::empty(),
                        NODE_CAPACITY as int,
                    );
                }
            },
            Err(e) => {
                self.node_transforms.clear();
                return Err(e);
            },
        }

        self.update_final_transforms();
        match rejected {
            Some(i) => Err(Error::ConfigError(i)),
            None => Ok(()),
        }
    }
}

} // verus!
