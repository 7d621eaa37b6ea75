use crate::error::Error;
use crate::file_name::{file_name, file_name_of};
use rand::{thread_rng, Rng};
use std::cmp::Ordering;
use vstd::std_specs::cmp::PartialOrdSpec;
use vstd::prelude::*;

verus! {

/// The smaller of the two; `b` where neither is smaller.
pub fn min<T: PartialOrd>(a: T, b: T) -> (r: T)
    ensures
        T::obeys_partial_cmp_spec() ==> r == (if a.partial_cmp_spec(&b) == Some(Ordering::Less) {
            a
        } else {
            b
        }),
{
    if a < b {
        a
    } else {
        b
    }
}

/// The greater of the two; `b` where neither is greater.
pub fn max<T: PartialOrd>(a: T, b: T) -> (r: T)
    ensures
        T::obeys_partial_cmp_spec() ==> r == (if a.partial_cmp_spec(&b) == Some(
            Ordering::Greater,
        ) {
            a
        } else {
            b
        }),
{
    if a > b {
        a
    } else {
        b
    }
}

/// Picks the name to load a file by, among the two under which it may lie in the
/// model's directory: `filename` as it was given, and its file name alone, with
/// backslashes read as separators as another platform wrote them. `direct_is_file`
/// and `flat_is_file` say whether a file lies in the directory under the one and
/// under the other. The first name that a file lies under is taken.
///
/// Fails with [`Error::PathError`] and the file name where no file lies under either.
pub fn get_exists_filename(filename: &str, direct_is_file: bool, flat_is_file: bool) -> (r: Result<
    String,
    Error,
>)
    requires
        direct_is_file || file_name(filename@) is Some,
    ensures
        direct_is_file ==> r is Ok && r->Ok_0@ == filename@,
        !direct_is_file && flat_is_file ==> r is Ok && r->Ok_0@ == file_name(filename@)->Some_0,
        !direct_is_file && !flat_is_file ==> (r matches Err(Error::PathError(name)) && name@
            == file_name(filename@)->Some_0),
{
    if direct_is_file {
        return Ok(filename.to_string());
    }
    let name = file_name_of(filename).unwrap();
    if flat_is_file {
        Ok(name)
    } else {
        Err(Error::PathError(name))
    }
}

/// A random number from `x` to `y`, both included.
///
/// Calls `rand::thread_rng` and `rand::Rng::gen_range`. Assumed, after their
/// documentation and not proved: the number lies in the range. Nothing more can be
/// said of it, and two calls may differ.
#[verifier::external_body]
pub fn rand_int(x: i32, y: i32) -> (r: i32)
    requires
        x <= y,
    ensures
        x <= r <= y,
{
    thread_rng().gen_range(x..=y)
}

} // verus!
