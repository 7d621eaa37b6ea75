use vstd::prelude::*;

verus! {

/// A hash index from names to slots: a `hashbrown` map hashed with aHash.
///
/// The map is held opaquely. Its type takes an allocator that is bound by a trait of
/// the `allocator-api2` crate, which has no specification here, so the type itself
/// cannot stand in a contract.
#[verifier::external_body]
pub struct NameIndex {
    map: hashbrown::HashMap<String, usize, std::hash::BuildHasherDefault<ahash::AHasher>>,
}

/// The slot that the index holds for each name. What the functions below say of it
/// is assumed of `hashbrown`, after its documentation, and not proved.
pub uninterp spec fn index_contents(index: NameIndex) -> Map<Seq<char>, usize>;

impl View for NameIndex {
    type V = Map<Seq<char>, usize>;

    open spec fn view(&self) -> Map<Seq<char>, usize> {
        index_contents(*self)
    }
}

/// Calls `hashbrown::HashMap::default`. Assumed: the map that it makes holds nothing.
#[verifier::external_body]
pub(crate) fn index_new() -> (r: NameIndex)
    ensures
        index_contents(r) =~= Map::empty(),
{
    NameIndex { map: hashbrown::HashMap::default() }
}

/// Calls `hashbrown::HashMap::get`. Assumed: it yields the value stored under the key
/// equal to `name`, and nothing where the map holds no such key.
#[verifier::external_body]
pub(crate) fn index_get(index: &NameIndex, name: &str) -> (r: Option<usize>)
    ensures
        r == (if index_contents(*index).contains_key(name@) {
            Some(index_contents(*index)[name@])
        } else {
            None
        }),
{
    index.map.get(name).copied()
}

/// Calls `hashbrown::HashMap::insert`. Assumed: afterwards the map holds `slot` under
/// `name`, in place of what it held there, and every other key as before.
#[verifier::external_body]
pub(crate) fn index_insert(index: &mut NameIndex, name: &str, slot: usize)
    ensures
        index_contents(*final(index)) == index_contents(*old(index)).insert(name@, slot),
{
    index.map.insert(name.to_string(), slot);
}

/// Calls `hashbrown::HashMap::clear`. Assumed: afterwards the map holds nothing.
#[verifier::external_body]
pub(crate) fn index_clear(index: &mut NameIndex)
    ensures
        index_contents(*final(index)) =~= Map::empty(),
{
    index.map.clear();
}

} // verus!
