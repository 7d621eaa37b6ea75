use spark_gap::error::Error;
use spark_gap::node_animation::{KeyPosition, KeyRotation, KeyScale, NodeAnimation};
use spark_gap::transform::{
    Factor, Quaternion, RotationSample, TrackSample, Vector3, VectorSample, ONE,
};

fn pos(x: i64, y: i64, z: i64, t: i64) -> KeyPosition {
    KeyPosition { position: Vector3::new(x * ONE, y * ONE, z * ONE), time_stamp: t }
}

fn rot(w: i64, t: i64) -> KeyRotation {
    KeyRotation { orientation: Quaternion::new(0, 0, 0, w), time_stamp: t }
}

fn scl(s: i64, t: i64) -> KeyScale {
    KeyScale { scale: Vector3::new(s * ONE, s * ONE, s * ONE), time_stamp: t }
}

fn single_key_track() -> NodeAnimation {
    NodeAnimation::new("arm", vec![pos(1, 2, 3, 4 * ONE)], vec![rot(ONE, 0)], vec![scl(2, 9 * ONE)])
}

#[test]
fn single_key_channels_hold_their_key_at_any_tick() {
    let track = single_key_track();
    let expected = TrackSample {
        position: VectorSample::Held(Vector3::new(ONE, 2 * ONE, 3 * ONE)),
        rotation: RotationSample::Held(Quaternion::new(0, 0, 0, ONE)),
        scale: VectorSample::Held(Vector3::new(2 * ONE, 2 * ONE, 2 * ONE)),
    };
    for tick in [i64::MIN, -1, 0, 1, 4 * ONE, 9 * ONE, 1000 * ONE, i64::MAX] {
        assert_eq!(track.get_animation_transform(tick), Ok(expected));
    }
}

#[test]
fn two_key_position_channel_is_sampled_half_way() {
    let track = NodeAnimation::new(
        "arm",
        vec![pos(0, 0, 0, 0), pos(10, 0, 0, ONE)],
        vec![rot(ONE, 0)],
        vec![scl(1, 0)],
    );
    let sample = track.interpolate_position(ONE / 2).unwrap();
    assert_eq!(
        sample,
        VectorSample::Between {
            from: Vector3::new(0, 0, 0),
            to: Vector3::new(10 * ONE, 0, 0),
            factor: Factor { elapsed: (ONE / 2) as i128, span: ONE as i128 },
        }
    );
    // What the sample stands for: the point half way from the first key to the second.
    match sample {
        VectorSample::Between { from, to, factor } => {
            let f = factor.elapsed as f64 / factor.span as f64;
            let lerp = |a: i64, b: i64| (a as f64 + (b - a) as f64 * f) / ONE as f64;
            assert_eq!(f, 0.5);
            let point = (lerp(from.x, to.x), lerp(from.y, to.y), lerp(from.z, to.z));
            assert_eq!(point, (5.0, 0.0, 0.0));
        }
        VectorSample::Held(_) => panic!("two keys are interpolated"),
    }
}

#[test]
fn bracket_is_the_first_pair_whose_second_key_lies_after_the_tick() {
    let track = NodeAnimation::new(
        "arm",
        vec![pos(0, 0, 0, 0), pos(1, 0, 0, 2 * ONE), pos(2, 0, 0, 5 * ONE), pos(3, 0, 0, 6 * ONE)],
        vec![rot(ONE, 0)],
        vec![scl(1, 0)],
    );
    let at = |tick: i64| track.interpolate_position(tick).unwrap();
    assert_eq!(
        at(2 * ONE),
        VectorSample::Between {
            from: Vector3::new(ONE, 0, 0),
            to: Vector3::new(2 * ONE, 0, 0),
            factor: Factor { elapsed: 0, span: (3 * ONE) as i128 },
        }
    );
    assert_eq!(
        at(-ONE),
        VectorSample::Between {
            from: Vector3::new(0, 0, 0),
            to: Vector3::new(ONE, 0, 0),
            factor: Factor { elapsed: -(ONE as i128), span: (2 * ONE) as i128 },
        }
    );
    assert_eq!(
        at(6 * ONE - 1),
        VectorSample::Between {
            from: Vector3::new(2 * ONE, 0, 0),
            to: Vector3::new(3 * ONE, 0, 0),
            factor: Factor { elapsed: (ONE - 1) as i128, span: ONE as i128 },
        }
    );
}

#[test]
fn sampling_at_or_past_the_last_key_is_a_data_error() {
    let track = NodeAnimation::new(
        "arm",
        vec![pos(0, 0, 0, 0), pos(10, 0, 0, ONE)],
        vec![rot(ONE, 0), rot(ONE / 2, ONE)],
        vec![scl(1, 0), scl(2, ONE)],
    );
    assert_eq!(track.interpolate_position(ONE), Err(Error::DataError));
    assert_eq!(track.interpolate_rotation(ONE), Err(Error::DataError));
    assert_eq!(track.interpolate_scaling(ONE + 7), Err(Error::DataError));
    assert_eq!(track.get_animation_transform(ONE), Err(Error::DataError));
    assert!(track.get_animation_transform(ONE - 1).is_ok());
}

#[test]
fn one_failing_channel_fails_the_track() {
    let track = NodeAnimation::new(
        "arm",
        vec![pos(1, 1, 1, 0)],
        vec![rot(ONE, 0), rot(ONE / 2, ONE)],
        vec![scl(1, 0)],
    );
    assert!(track.get_animation_transform(0).is_ok());
    assert_eq!(track.get_animation_transform(2 * ONE), Err(Error::DataError));
}

#[test]
fn empty_channel_is_a_data_error() {
    let track = NodeAnimation::new("arm", vec![], vec![rot(ONE, 0)], vec![scl(1, 0)]);
    assert_eq!(track.interpolate_position(0), Err(Error::DataError));
    assert_eq!(track.get_animation_transform(0), Err(Error::DataError));
}

#[test]
fn rotation_and_scale_channels_interpolate_between_their_own_keys() {
    let track = NodeAnimation::new(
        "arm",
        vec![pos(0, 0, 0, 0)],
        vec![rot(ONE, 0), rot(ONE / 2, 4 * ONE)],
        vec![scl(1, ONE), scl(3, 3 * ONE)],
    );
    assert_eq!(
        track.get_animation_transform(2 * ONE),
        Ok(TrackSample {
            position: VectorSample::Held(Vector3::new(0, 0, 0)),
            rotation: RotationSample::Between {
                from: Quaternion::new(0, 0, 0, ONE),
                to: Quaternion::new(0, 0, 0, ONE / 2),
                factor: Factor { elapsed: (2 * ONE) as i128, span: (4 * ONE) as i128 },
            },
            scale: VectorSample::Between {
                from: Vector3::new(ONE, ONE, ONE),
                to: Vector3::new(3 * ONE, 3 * ONE, 3 * ONE),
                factor: Factor { elapsed: ONE as i128, span: (2 * ONE) as i128 },
            },
        })
    );
}

#[test]
fn scale_factor_does_not_overflow_at_the_ends_of_the_range() {
    let factor = NodeAnimation::get_scale_factor(i64::MIN, i64::MAX, i64::MAX);
    assert_eq!(factor.elapsed, i64::MAX as i128 - i64::MIN as i128);
    assert_eq!(factor.span, i64::MAX as i128 - i64::MIN as i128);
}
