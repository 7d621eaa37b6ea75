use crate::error::Error;
use crate::transform::{Factor, Quaternion, RotationSample, TrackSample, Vector3, VectorSample};
use vstd::prelude::*;

verus! {

/// A position key: where the node is at `time_stamp`.
#[derive(Clone, Copy, Debug, PartialEq, Eq, Structural)]
pub struct KeyPosition {
    pub position: Vector3,
    pub time_stamp: i64,
}

/// A rotation key: how the node is turned at `time_stamp`.
#[derive(Clone, Copy, Debug, PartialEq, Eq, Structural)]
pub struct KeyRotation {
    pub orientation: Quaternion,
    pub time_stamp: i64,
}

/// A scale key: how the node is scaled at `time_stamp`.
#[derive(Clone, Copy, Debug, PartialEq, Eq, Structural)]
pub struct KeyScale {
    pub scale: Vector3,
    pub time_stamp: i64,
}

/// The keyframe tracks of one node. The three channels are timed independently.
#[derive(Debug)]
pub struct NodeAnimation {
    pub name: String,
    pub positions: Vec<KeyPosition>,
    pub rotations: Vec<KeyRotation>,
    pub scales: Vec<KeyScale>,
}

/// The time stamps of a position channel, in key order.
pub open spec fn position_times(keys: Seq<KeyPosition>) -> Seq<i64> {
    Seq::new(keys.len(), |i: int| keys[i].time_stamp)
}

/// The time stamps of a rotation channel, in key order.
pub open spec fn rotation_times(keys: Seq<KeyRotation>) -> Seq<i64> {
    Seq::new(keys.len(), |i: int| keys[i].time_stamp)
}

/// The time stamps of a scale channel, in key order.
pub open spec fn scale_times(keys: Seq<KeyScale>) -> Seq<i64> {
    Seq::new(keys.len(), |i: int| keys[i].time_stamp)
}

/// Key `i` and its successor bracket `tick`: `i` is the first key whose successor lies
/// strictly after `tick`.
pub open spec fn is_bracket(times: Seq<i64>, tick: i64, i: int) -> bool {
    &&& 0 <= i
    &&& i + 1 < times.len()
    &&& tick < times[i + 1]
    &&& forall|j: int| 0 <= j < i ==> tick >= #[trigger] times[j + 1]
}

/// Some pair of neighbouring keys brackets `tick`.
pub open spec fn has_bracket(times: Seq<i64>, tick: i64) -> bool {
    exists|i: int| is_bracket(times, tick, i)
}

/// The first key of the pair that brackets `tick`.
pub open spec fn bracket_of(times: Seq<i64>, tick: i64) -> int {
    choose|i: int| is_bracket(times, tick, i)
}

/// The factor by which `tick` lies between the time stamps `last` and `next`.
pub open spec fn scale_factor(last: i64, next: i64, tick: i64) -> Factor {
    Factor { elapsed: (tick - last) as i128, span: (next - last) as i128 }
}

/// A position channel at `tick`: its only key, or the interpolation between the
/// bracketing keys; nothing where the channel has no bracket for `tick`.
pub open spec fn sample_position(keys: Seq<KeyPosition>, tick: i64) -> Option<VectorSample> {
    let times = position_times(keys);
    if keys.len() == 1 {
        Some(VectorSample::Held(keys[0].position))
    } else if has_bracket(times, tick) {
        let i = bracket_of(times, tick);
        Some(
            VectorSample::Between {
                from: keys[i].position,
                to: keys[i + 1].position,
                factor: scale_factor(keys[i].time_stamp, keys[i + 1].time_stamp, tick),
            },
        )
    } else {
        None
    }
}

/// A rotation channel at `tick`, as [`sample_position`].
pub open spec fn sample_rotation(keys: Seq<KeyRotation>, tick: i64) -> Option<RotationSample> {
    let times = rotation_times(keys);
    if keys.len() == 1 {
        Some(RotationSample::Held(keys[0].orientation))
    } else if has_bracket(times, tick) {
        let i = bracket_of(times, tick);
        Some(
            RotationSample::Between {
                from: keys[i].orientation,
                to: keys[i + 1].orientation,
                factor: scale_factor(keys[i].time_stamp, keys[i + 1].time_stamp, tick),
            },
        )
    } else {
        None
    }
}

/// A scale channel at `tick`, as [`sample_position`].
pub open spec fn sample_scale(keys: Seq<KeyScale>, tick: i64) -> Option<VectorSample> {
    let times = scale_times(keys);
    if keys.len() == 1 {
        Some(VectorSample::Held(keys[0].scale))
    } else if has_bracket(times, tick) {
        let i = bracket_of(times, tick);
        Some(
            VectorSample::Between {
                from: keys[i].scale,
                to: keys[i + 1].scale,
                factor: scale_factor(keys[i].time_stamp, keys[i + 1].time_stamp, tick),
            },
        )
    } else {
        None
    }
}

/// A whole track at `tick`: the three channels sampled separately; nothing where any
/// of them cannot be sampled.
pub open spec fn sample_track(track: NodeAnimation, tick: i64) -> Option<TrackSample> {
    match (
        sample_position(track.positions@, tick),
        sample_rotation(track.rotations@, tick),
        sample_scale(track.scales@, tick),
    ) {
        (Some(position), Some(rotation), Some(scale)) => Some(
            TrackSample { position, rotation, scale },
        ),
        _ => None,
    }
}

/// At most one pair of keys brackets a tick.
pub proof fn lemma_bracket_unique(times: Seq<i64>, tick: i64, i: int, j: int)
    requires
        is_bracket(times, tick, i),
        is_bracket(times, tick, j),
    ensures
        i == j,
{
    if i < j {
        assert(tick >= times[i + 1]);
    } else if j < i {
        assert(tick >= times[j + 1]);
    }
}

/// A tick at or past every key but the first has no bracket.
pub proof fn lemma_no_bracket(times: Seq<i64>, tick: i64)
    requires
        forall|j: int| 0 <= j && j + 1 < times.len() ==> tick >= #[trigger] times[j + 1],
    ensures
        !has_bracket(times, tick),
{
    if has_bracket(times, tick) {
        let i = bracket_of(times, tick);
        assert(tick >= times[i + 1]);
    }
}

impl NodeAnimation {
    /// A track for the node called `name`, with the given channels.
    pub fn new(
        name: &str,
        positions: Vec<KeyPosition>,
        rotations: Vec<KeyRotation>,
        scales: Vec<KeyScale>,
    ) -> (r: Self)
        ensures
            r.name@ == name@,
            r.positions == positions,
            r.rotations == rotations,
            r.scales == scales,
    {
        NodeAnimation { name: name.to_string(), positions, rotations, scales }
    }

    /// Samples the three channels at `animation_time` and puts them together.
    ///
    /// Fails with [`Error::DataError`] exactly where some channel has more or fewer
    /// than one key and no pair of neighbouring keys brackets the tick, which is so in
    /// particular at and after the channel's last key.
    pub fn get_animation_transform(&self, animation_time: i64) -> (r: Result<TrackSample, Error>)
        ensures
            match sample_track(*self, animation_time) {
                Some(s) => r == Ok::<TrackSample, Error>(s),
                None => r == Err::<TrackSample, Error>(Error::DataError),
            },
    {
        let position = self.interpolate_position(animation_time)?;
        let rotation = self.interpolate_rotation(animation_time)?;
        let scale = self.interpolate_scaling(animation_time)?;
        Ok(TrackSample { position, rotation, scale })
    }

    /// The position channel at `animation_time`.
    pub fn interpolate_position(&self, animation_time: i64) -> (r: Result<VectorSample, Error>)
        ensures
            match sample_position(self.positions@, animation_time) {
                Some(s) => r == Ok::<VectorSample, Error>(s),
                None => r == Err::<VectorSample, Error>(Error::DataError),
            },
    {
        if self.positions.len() == 1 {
            return Ok(VectorSample::Held(self.positions[0].position));
        }
        match self.get_position_index(animation_time) {
            Some(p0_index) => {
                let p1_index = p0_index + 1;
                let factor = Self::get_scale_factor(
                    self.positions[p0_index].time_stamp,
                    self.positions[p1_index].time_stamp,
                    animation_time,
                );
                Ok(
                    VectorSample::Between {
                        from: self.positions[p0_index].position,
                        to: self.positions[p1_index].position,
                        factor,
                    },
                )
            },
            None => Err(Error::DataError),
        }
    }

    /// The rotation channel at `animation_time`.
    pub fn interpolate_rotation(&self, animation_time: i64) -> (r: Result<RotationSample, Error>)
        ensures
            match sample_rotation(self.rotations@, animation_time) {
                Some(s) => r == Ok::<RotationSample, Error>(s),
                None => r == Err::<RotationSample, Error>(Error::DataError),
            },
    {
        if self.rotations.len() == 1 {
            return Ok(RotationSample::Held(self.rotations[0].orientation));
        }
        match self.get_rotation_index(animation_time) {
            Some(p0_index) => {
                let p1_index = p0_index + 1;
                let factor = Self::get_scale_factor(
                    self.rotations[p0_index].time_stamp,
                    self.rotations[p1_index].time_stamp,
                    animation_time,
                );
                Ok(
                    RotationSample::Between {
                        from: self.rotations[p0_index].orientation,
                        to: self.rotations[p1_index].orientation,
                        factor,
                    },
                )
            },
            None => Err(Error::DataError),
        }
    }

    /// The scale channel at `animation_time`.
    pub fn interpolate_scaling(&self, animation_time: i64) -> (r: Result<VectorSample, Error>)
        ensures
            match sample_scale(self.scales@, animation_time) {
                Some(s) => r == Ok::<VectorSample, Error>(s),
                None => r == Err::<VectorSample, Error>(Error::DataError),
            },
    {
        if self.scales.len() == 1 {
            return Ok(VectorSample::Held(self.scales[0].scale));
        }
        match self.get_scale_index(animation_time) {
            Some(p0_index) => {
                let p1_index = p0_index + 1;
                let factor = Self::get_scale_factor(
                    self.scales[p0_index].time_stamp,
                    self.scales[p1_index].time_stamp,
                    animation_time,
                );
                Ok(
                    VectorSample::Between {
                        from: self.scales[p0_index].scale,
                        to: self.scales[p1_index].scale,
                        factor,
                    },
                )
            },
            None => Err(Error::DataError),
        }
    }

    /// The first position key whose successor lies after `animation_time`.
    fn get_position_index(&self, animation_time: i64) -> (r: Option<usize>)
        ensures
            match r {
                Some(i) => is_bracket(position_times(self.positions@), animation_time, i as int)
                    && bracket_of(position_times(self.positions@), animation_time) == i,
                None => !has_bracket(position_times(self.positions@), animation_time),
            },
    {
        let n = self.positions.len();
        if n == 0 {
            proof {
                lemma_no_bracket(position_times(self.positions@), animation_time);
            }
            return None;
        }
        let ghost times = position_times(self.positions@);
        let mut index: usize = 0;
        while index < n - 1
            invariant
                n == self.positions.len(),
                times == position_times(self.positions@),
                0 < n,
                index <= n - 1,
                forall|j: int| 0 <= j < index ==> animation_time >= #[trigger] times[j + 1],
            decreases n - index,
        {
            if animation_time < self.positions[index + 1].time_stamp {
                proof {
                    assert(is_bracket(times, animation_time, index as int));
                    lemma_bracket_unique(
                        times,
                        animation_time,
                        index as int,
                        bracket_of(times, animation_time),
                    );
                }
                return Some(index);
            }
            index = index + 1;
        }
        proof {
            lemma_no_bracket(times, animation_time);
        }
        None
    }

    /// The first rotation key whose successor lies after `animation_time`.
    fn get_rotation_index(&self, animation_time: i64) -> (r: Option<usize>)
        ensures
            match r {
                Some(i) => is_bracket(rotation_times(self.rotations@), animation_time, i as int)
                    && bracket_of(rotation_times(self.rotations@), animation_time) == i,
                None => !has_bracket(rotation_times(self.rotations@), animation_time),
            },
    {
        let n = self.rotations.len();
        if n == 0 {
            proof {
                lemma_no_bracket(rotation_times(self.rotations@), animation_time);
            }
            return None;
        }
        let ghost times = rotation_times(self.rotations@);
        let mut index: usize = 0;
        while index < n - 1
            invariant
                n == self.rotations.len(),
                times == rotation_times(self.rotations@),
                0 < n,
                index <= n - 1,
                forall|j: int| 0 <= j < index ==> animation_time >= #[trigger] times[j + 1],
            decreases n - index,
        {
            if animation_time < self.rotations[index + 1].time_stamp {
                proof {
                    assert(is_bracket(times, animation_time, index as int));
                    lemma_bracket_unique(
                        times,
                        animation_time,
                        index as int,
                        bracket_of(times, animation_time),
                    );
                }
                return Some(index);
            }
            index = index + 1;
        }
        proof {
            lemma_no_bracket(times, animation_time);
        }
        None
    }

    /// The first scale key whose successor lies after `animation_time`.
    fn get_scale_index(&self, animation_time: i64) -> (r: Option<usize>)
        ensures
            match r {
                Some(i) => is_bracket(scale_times(self.scales@), animation_time, i as int)
                    && bracket_of(scale_times(self.scales@), animation_time) == i,
                None => !has_bracket(scale_times(self.scales@), animation_time),
            },
    {
        let n = self.scales.len();
        if n == 0 {
            proof {
                lemma_no_bracket(scale_times(self.scales@), animation_time);
            }
            return None;
        }
        let ghost times = scale_times(self.scales@);
        let mut index: usize = 0;
        while index < n - 1
            invariant
                n == self.scales.len(),
                times == scale_times(self.scales@),
                0 < n,
                index <= n - 1,
                forall|j: int| 0 <= j < index ==> animation_time >= #[trigger] times[j + 1],
            decreases n - index,
        {
            if animation_time < self.scales[index + 1].time_stamp {
                proof {
                    assert(is_bracket(times, animation_time, index as int));
                    lemma_bracket_unique(
                        times,
                        animation_time,
                        index as int,
                        bracket_of(times, animation_time),
                    );
                }
                return Some(index);
            }
            index = index + 1;
        }
        proof {
            lemma_no_bracket(times, animation_time);
        }
        None
    }

    /// How far `animation_time` lies from `last_timestamp` towards `next_timestamp`.
    pub fn get_scale_factor(last_timestamp: i64, next_timestamp: i64, animation_time: i64) -> (r:
        Factor)
        ensures
            r == scale_factor(last_timestamp, next_timestamp, animation_time),
    {
        let mid_way_length: i128 = animation_time as i128 - last_timestamp as i128;
        let frames_diff: i128 = next_timestamp as i128 - last_timestamp as i128;
        Factor { elapsed: mid_way_length, span: frames_diff }
    }
}

/// A channel with a single key yields that key at every tick, and so does every
/// sample of a track that has such a channel.
pub proof fn lemma_single_key_is_held(track: NodeAnimation, tick: i64)
    ensures
        track.positions@.len() == 1 ==> sample_position(track.positions@, tick) == Some(
            VectorSample::Held(track.positions@[0].position),
        ),
        track.rotations@.len() == 1 ==> sample_rotation(track.rotations@, tick) == Some(
            RotationSample::Held(track.rotations@[0].orientation),
        ),
        track.scales@.len() == 1 ==> sample_scale(track.scales@, tick) == Some(
            VectorSample::Held(track.scales@[0].scale),
        ),
        sample_track(track, tick) matches Some(sample) ==> {
            &&& track.positions@.len() == 1 ==> sample.position == VectorSample::Held(
                track.positions@[0].position,
            )
            &&& track.rotations@.len() == 1 ==> sample.rotation == RotationSample::Held(
                track.rotations@[0].orientation,
            )
            &&& track.scales@.len() == 1 ==> sample.scale == VectorSample::Held(
                track.scales@[0].scale,
            )
        },
        track.positions@.len() == 1 && track.rotations@.len() == 1 && track.scales@.len() == 1
            ==> sample_track(track, tick) == Some(
            TrackSample {
                position: VectorSample::Held(track.positions@[0].position),
                rotation: RotationSample::Held(track.rotations@[0].orientation),
                scale: VectorSample::Held(track.scales@[0].scale),
            },
        ),
{
}

/// At or after the last key of a channel with several keys in ascending order, no
/// pair of keys brackets the tick.
pub proof fn lemma_past_last_key_has_no_bracket(times: Seq<i64>, tick: i64)
    requires
        times.len() > 0,
        forall|i: int, j: int| 0 <= i <= j < times.len() ==> times[i] <= times[j],
        tick >= times[times.len() - 1],
    ensures
        !has_bracket(times, tick),
{
    assert forall|j: int| 0 <= j && j + 1 < times.len() implies tick >= #[trigger] times[j
        + 1] by {
        assert(times[j + 1] <= times[times.len() - 1]);
    }
    lemma_no_bracket(times, tick);
}

/// Where the keys of a channel stand in ascending order and the tick is not before the
/// first of them, the bracketing keys have the tick between them: the factor lies
/// between nought and one, one excluded.
pub proof fn lemma_bracket_holds_tick(times: Seq<i64>, tick: i64, i: int)
    requires
        forall|a: int, b: int| 0 <= a <= b < times.len() ==> times[a] <= times[b],
        is_bracket(times, tick, i),
        times[0] <= tick,
    ensures
        times[i] <= tick < times[i + 1],
        0 <= scale_factor(times[i], times[i + 1], tick).elapsed < scale_factor(
            times[i],
            times[i + 1],
            tick,
        ).span,
{
    if i > 0 {
        assert(tick >= times[(i - 1) + 1]);
    }
}

} // verus!
