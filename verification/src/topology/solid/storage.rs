//! The slot maps that hold a solid's elements.
//!
//! Each kind of element lives in a `slotmap::SlotMap` keyed by
//! `slotmap::DefaultKey`. A key leaves this module as the `u64` that
//! `KeyData::as_ffi` gives for it, wrapped in the element's own key type, and
//! comes back through `KeyData::from_ffi`, which the slotmap documentation
//! promises gives back the very key for any value that `as_ffi` produced.
//!
//! What a slot map holds is named by one uninterpreted function per element
//! kind (`vertex_slots`, ...). Each wrapper below states what the slotmap
//! source shows the method does to those contents: `with_key` starts empty,
//! `insert` adds the value under a key not in use and panics only when the map
//! holds `u32::MAX - 1` elements with no free slot, `remove` takes out the
//! value of a present key, `len` counts the elements, and indexing returns the
//! value of a present key (it panics on an absent one, which the wrappers rule
//! out by their `requires`).

use vstd::prelude::*;

use slotmap::{DefaultKey, Key, KeyData, SlotMap};

use super::edge::{Edge, EdgeKey};
use super::edge_loop::{EdgeLoop, EdgeLoopKey};
use super::face::{Face, FaceKey};
use super::half_edge::{HalfEdge, HalfEdgeKey};
use super::vertex::{Vertex, VertexKey};

verus! {

/// The number of elements below which a slot map can always take one more.
pub const SLOT_CAPACITY: u64 = 4294967294;

/// A `slotmap::SlotMap` keyed by `slotmap::DefaultKey`, holding values of
/// type `V`. Verus sees nothing of it but what the functions below state.
#[verifier::external_body]
#[verifier::reject_recursive_types(V)]
pub struct Slots<V> {
    map: SlotMap<DefaultKey, V>,
}

/// The vertices held by a slot map of vertices, by key.
pub uninterp spec fn vertex_slots(map: Slots<Vertex>) -> Map<VertexKey, Vertex>;

/// `SlotMap::with_key`: a new slot map of vertices, which holds nothing.
#[verifier::external_body]
pub(crate) fn vertex_slots_new() -> (slots: Slots<Vertex>)
    ensures
        vertex_slots(slots).is_empty(),
{
    Slots { map: SlotMap::with_key() }
}

/// `SlotMap::len`: the number of vertices held.
#[verifier::external_body]
pub(crate) fn vertex_slots_len(m: &Slots<Vertex>) -> (n: usize)
    ensures
        n == vertex_slots(*m).len(),
{
    m.map.len()
}

/// `SlotMap::insert`: stores `value` under a key that was not in use and
/// returns that key.
#[verifier::external_body]
pub(crate) fn vertex_slots_insert(m: &mut Slots<Vertex>, value: Vertex) -> (key: VertexKey)
    requires
        vertex_slots(*old(m)).len() < SLOT_CAPACITY,
    ensures
        !vertex_slots(*old(m)).dom().contains(key),
        vertex_slots(*final(m)) == vertex_slots(*old(m)).insert(key, value),
    no_unwind
{
    VertexKey { data: m.map.insert(value).data().as_ffi() }
}

/// `SlotMap::remove`: takes the vertex stored under a present key out of the map.
#[verifier::external_body]
pub(crate) fn vertex_slots_remove(m: &mut Slots<Vertex>, key: VertexKey) -> (value: Option<Vertex>)
    requires
        vertex_slots(*old(m)).dom().contains(key),
    ensures
        value == Some(vertex_slots(*old(m))[key]),
        vertex_slots(*final(m)) == vertex_slots(*old(m)).remove(key),
    no_unwind
{
    m.map.remove(DefaultKey::from(KeyData::from_ffi(key.data)))
}

/// `Index::index`: the vertex stored under a present key.
#[verifier::external_body]
pub(crate) fn vertex_slots_get(m: &Slots<Vertex>, key: VertexKey) -> (value: &Vertex)
    requires
        vertex_slots(*m).dom().contains(key),
    ensures
        *value == vertex_slots(*m)[key],
{
    &m.map[DefaultKey::from(KeyData::from_ffi(key.data))]
}

/// `IndexMut::index_mut`: the vertex stored under a present key, to be
/// changed in place.
#[verifier::external_body]
pub(crate) fn vertex_slots_get_mut(m: &mut Slots<Vertex>, key: VertexKey) -> (value: &mut Vertex)
    requires
        vertex_slots(*old(m)).dom().contains(key),
    ensures
        *value == vertex_slots(*old(m))[key],
        vertex_slots(*final(m)) == vertex_slots(*old(m)).insert(key, *final(value)),
    no_unwind
{
    &mut m.map[DefaultKey::from(KeyData::from_ffi(key.data))]
}

/// The half-edges held by a slot map of half-edges, by key.
pub uninterp spec fn half_edge_slots(map: Slots<HalfEdge>) -> Map<HalfEdgeKey, HalfEdge>;

/// `SlotMap::with_key`: a new slot map of half-edges, which holds nothing.
#[verifier::external_body]
pub(crate) fn half_edge_slots_new() -> (slots: Slots<HalfEdge>)
    ensures
        half_edge_slots(slots).is_empty(),
{
    Slots { map: SlotMap::with_key() }
}

/// `SlotMap::len`: the number of half-edges held.
#[verifier::external_body]
pub(crate) fn half_edge_slots_len(m: &Slots<HalfEdge>) -> (n: usize)
    ensures
        n == half_edge_slots(*m).len(),
{
    m.map.len()
}

/// `SlotMap::insert`: stores `value` under a key that was not in use and
/// returns that key.
#[verifier::external_body]
pub(crate) fn half_edge_slots_insert(m: &mut Slots<HalfEdge>, value: HalfEdge) -> (key: HalfEdgeKey)
    requires
        half_edge_slots(*old(m)).len() < SLOT_CAPACITY,
    ensures
        !half_edge_slots(*old(m)).dom().contains(key),
        half_edge_slots(*final(m)) == half_edge_slots(*old(m)).insert(key, value),
    no_unwind
{
    HalfEdgeKey { data: m.map.insert(value).data().as_ffi() }
}

/// `SlotMap::remove`: takes the half edge stored under a present key out of the map.
#[verifier::external_body]
pub(crate) fn half_edge_slots_remove(m: &mut Slots<HalfEdge>, key: HalfEdgeKey) -> (value: Option<HalfEdge>)
    requires
        half_edge_slots(*old(m)).dom().contains(key),
    ensures
        value == Some(half_edge_slots(*old(m))[key]),
        half_edge_slots(*final(m)) == half_edge_slots(*old(m)).remove(key),
    no_unwind
{
    m.map.remove(DefaultKey::from(KeyData::from_ffi(key.data)))
}

/// `Index::index`: the half edge stored under a present key.
#[verifier::external_body]
pub(crate) fn half_edge_slots_get(m: &Slots<HalfEdge>, key: HalfEdgeKey) -> (value: &HalfEdge)
    requires
        half_edge_slots(*m).dom().contains(key),
    ensures
        *value == half_edge_slots(*m)[key],
{
    &m.map[DefaultKey::from(KeyData::from_ffi(key.data))]
}

/// `IndexMut::index_mut`: the half edge stored under a present key, to be
/// changed in place.
#[verifier::external_body]
pub(crate) fn half_edge_slots_get_mut(m: &mut Slots<HalfEdge>, key: HalfEdgeKey) -> (value: &mut HalfEdge)
    requires
        half_edge_slots(*old(m)).dom().contains(key),
    ensures
        *value == half_edge_slots(*old(m))[key],
        half_edge_slots(*final(m)) == half_edge_slots(*old(m)).insert(key, *final(value)),
    no_unwind
{
    &mut m.map[DefaultKey::from(KeyData::from_ffi(key.data))]
}

/// The edges held by a slot map of edges, by key.
pub uninterp spec fn edge_slots(map: Slots<Edge>) -> Map<EdgeKey, Edge>;

/// `SlotMap::with_key`: a new slot map of edges, which holds nothing.
#[verifier::external_body]
pub(crate) fn edge_slots_new() -> (slots: Slots<Edge>)
    ensures
        edge_slots(slots).is_empty(),
{
    Slots { map: SlotMap::with_key() }
}

/// `SlotMap::len`: the number of edges held.
#[verifier::external_body]
pub(crate) fn edge_slots_len(m: &Slots<Edge>) -> (n: usize)
    ensures
        n == edge_slots(*m).len(),
{
    m.map.len()
}

/// `SlotMap::insert`: stores `value` under a key that was not in use and
/// returns that key.
#[verifier::external_body]
pub(crate) fn edge_slots_insert(m: &mut Slots<Edge>, value: Edge) -> (key: EdgeKey)
    requires
        edge_slots(*old(m)).len() < SLOT_CAPACITY,
    ensures
        !edge_slots(*old(m)).dom().contains(key),
        edge_slots(*final(m)) == edge_slots(*old(m)).insert(key, value),
    no_unwind
{
    EdgeKey { data: m.map.insert(value).data().as_ffi() }
}

/// `SlotMap::remove`: takes the edge stored under a present key out of the map.
#[verifier::external_body]
pub(crate) fn edge_slots_remove(m: &mut Slots<Edge>, key: EdgeKey) -> (value: Option<Edge>)
    requires
        edge_slots(*old(m)).dom().contains(key),
    ensures
        value == Some(edge_slots(*old(m))[key]),
        edge_slots(*final(m)) == edge_slots(*old(m)).remove(key),
    no_unwind
{
    m.map.remove(DefaultKey::from(KeyData::from_ffi(key.data)))
}

/// `Index::index`: the edge stored under a present key.
#[verifier::external_body]
pub(crate) fn edge_slots_get(m: &Slots<Edge>, key: EdgeKey) -> (value: &Edge)
    requires
        edge_slots(*m).dom().contains(key),
    ensures
        *value == edge_slots(*m)[key],
{
    &m.map[DefaultKey::from(KeyData::from_ffi(key.data))]
}

/// `IndexMut::index_mut`: the edge stored under a present key, to be
/// changed in place.
#[verifier::external_body]
pub(crate) fn edge_slots_get_mut(m: &mut Slots<Edge>, key: EdgeKey) -> (value: &mut Edge)
    requires
        edge_slots(*old(m)).dom().contains(key),
    ensures
        *value == edge_slots(*old(m))[key],
        edge_slots(*final(m)) == edge_slots(*old(m)).insert(key, *final(value)),
    no_unwind
{
    &mut m.map[DefaultKey::from(KeyData::from_ffi(key.data))]
}

/// The edge loops held by a slot map of edge loops, by key.
pub uninterp spec fn edge_loop_slots(map: Slots<EdgeLoop>) -> Map<EdgeLoopKey, EdgeLoop>;

/// `SlotMap::with_key`: a new slot map of edge loops, which holds nothing.
#[verifier::external_body]
pub(crate) fn edge_loop_slots_new() -> (slots: Slots<EdgeLoop>)
    ensures
        edge_loop_slots(slots).is_empty(),
{
    Slots { map: SlotMap::with_key() }
}

/// `SlotMap::len`: the number of edge loops held.
#[verifier::external_body]
pub(crate) fn edge_loop_slots_len(m: &Slots<EdgeLoop>) -> (n: usize)
    ensures
        n == edge_loop_slots(*m).len(),
{
    m.map.len()
}

/// `SlotMap::insert`: stores `value` under a key that was not in use and
/// returns that key.
#[verifier::external_body]
pub(crate) fn edge_loop_slots_insert(m: &mut Slots<EdgeLoop>, value: EdgeLoop) -> (key: EdgeLoopKey)
    requires
        edge_loop_slots(*old(m)).len() < SLOT_CAPACITY,
    ensures
        !edge_loop_slots(*old(m)).dom().contains(key),
        edge_loop_slots(*final(m)) == edge_loop_slots(*old(m)).insert(key, value),
    no_unwind
{
    EdgeLoopKey { data: m.map.insert(value).data().as_ffi() }
}

/// `SlotMap::remove`: takes the edge loop stored under a present key out of the map.
#[verifier::external_body]
pub(crate) fn edge_loop_slots_remove(m: &mut Slots<EdgeLoop>, key: EdgeLoopKey) -> (value: Option<EdgeLoop>)
    requires
        edge_loop_slots(*old(m)).dom().contains(key),
    ensures
        value == Some(edge_loop_slots(*old(m))[key]),
        edge_loop_slots(*final(m)) == edge_loop_slots(*old(m)).remove(key),
    no_unwind
{
    m.map.remove(DefaultKey::from(KeyData::from_ffi(key.data)))
}

/// `Index::index`: the edge loop stored under a present key.
#[verifier::external_body]
pub(crate) fn edge_loop_slots_get(m: &Slots<EdgeLoop>, key: EdgeLoopKey) -> (value: &EdgeLoop)
    requires
        edge_loop_slots(*m).dom().contains(key),
    ensures
        *value == edge_loop_slots(*m)[key],
{
    &m.map[DefaultKey::from(KeyData::from_ffi(key.data))]
}

/// `IndexMut::index_mut`: the edge loop stored under a present key, to be
/// changed in place.
#[verifier::external_body]
pub(crate) fn edge_loop_slots_get_mut(m: &mut Slots<EdgeLoop>, key: EdgeLoopKey) -> (value: &mut EdgeLoop)
    requires
        edge_loop_slots(*old(m)).dom().contains(key),
    ensures
        *value == edge_loop_slots(*old(m))[key],
        edge_loop_slots(*final(m)) == edge_loop_slots(*old(m)).insert(key, *final(value)),
    no_unwind
{
    &mut m.map[DefaultKey::from(KeyData::from_ffi(key.data))]
}

/// The faces held by a slot map of faces, by key.
pub uninterp spec fn face_slots(map: Slots<Face>) -> Map<FaceKey, Face>;

/// `SlotMap::with_key`: a new slot map of faces, which holds nothing.
#[verifier::external_body]
pub(crate) fn face_slots_new() -> (slots: Slots<Face>)
    ensures
        face_slots(slots).is_empty(),
{
    Slots { map: SlotMap::with_key() }
}

/// `SlotMap::len`: the number of faces held.
#[verifier::external_body]
pub(crate) fn face_slots_len(m: &Slots<Face>) -> (n: usize)
    ensures
        n == face_slots(*m).len(),
{
    m.map.len()
}

/// `SlotMap::insert`: stores `value` under a key that was not in use and
/// returns that key.
#[verifier::external_body]
pub(crate) fn face_slots_insert(m: &mut Slots<Face>, value: Face) -> (key: FaceKey)
    requires
        face_slots(*old(m)).len() < SLOT_CAPACITY,
    ensures
        !face_slots(*old(m)).dom().contains(key),
        face_slots(*final(m)) == face_slots(*old(m)).insert(key, value),
    no_unwind
{
    FaceKey { data: m.map.insert(value).data().as_ffi() }
}

/// `SlotMap::remove`: takes the face stored under a present key out of the map.
#[verifier::external_body]
pub(crate) fn face_slots_remove(m: &mut Slots<Face>, key: FaceKey) -> (value: Option<Face>)
    requires
        face_slots(*old(m)).dom().contains(key),
    ensures
        value == Some(face_slots(*old(m))[key]),
        face_slots(*final(m)) == face_slots(*old(m)).remove(key),
    no_unwind
{
    m.map.remove(DefaultKey::from(KeyData::from_ffi(key.data)))
}

/// `Index::index`: the face stored under a present key.
#[verifier::external_body]
pub(crate) fn face_slots_get(m: &Slots<Face>, key: FaceKey) -> (value: &Face)
    requires
        face_slots(*m).dom().contains(key),
    ensures
        *value == face_slots(*m)[key],
{
    &m.map[DefaultKey::from(KeyData::from_ffi(key.data))]
}

/// `IndexMut::index_mut`: the face stored under a present key, to be
/// changed in place.
#[verifier::external_body]
pub(crate) fn face_slots_get_mut(m: &mut Slots<Face>, key: FaceKey) -> (value: &mut Face)
    requires
        face_slots(*old(m)).dom().contains(key),
    ensures
        *value == face_slots(*old(m))[key],
        face_slots(*final(m)) == face_slots(*old(m)).insert(key, *final(value)),
    no_unwind
{
    &mut m.map[DefaultKey::from(KeyData::from_ffi(key.data))]
}

} // verus!
