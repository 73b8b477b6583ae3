//! Reading a geometry out of a decoded document.
//!
//! The numbers come out as the bit patterns of their binary64 form, as the
//! document holds them: bringing them onto the grid is left to the caller.
//! Nothing is passed over: an entry that has not the form of a ring, of a
//! position or of a number is reported.

use vstd::prelude::*;
use serde_json::Value;
use crate::geometry::GeometryError;
use crate::json::{
    is_object, items, items_at, items_field, json_is_object, json_items, json_number_bits,
    number_bits, text_at, text_field,
};

verus! {

/// Whether every one of `values` is a number.
pub open spec fn all_numbers(values: Seq<Value>) -> bool {
    forall|i: int| 0 <= i < values.len() ==> (#[trigger] json_number_bits(values[i])) is Some
}

/// Whether every one of `values` is a position: an array of numbers.
pub open spec fn all_number_lists(values: Seq<Value>) -> bool {
    forall|i: int|
        0 <= i < values.len() ==> match #[trigger] json_items(values[i]) {
            Some(inner) => all_numbers(inner),
            None => false,
        }
}

/// Whether every one of `values` is a ring: an array of positions.
pub open spec fn all_positions(values: Seq<Value>) -> bool {
    forall|i: int|
        0 <= i < values.len() ==> match #[trigger] json_items(values[i]) {
            Some(inner) => all_number_lists(inner),
            None => false,
        }
}

/// The numbers among `values`, in their order.
pub open spec fn numbers_of(values: Seq<Value>) -> Seq<u64>
    decreases values.len(),
{
    if values.len() == 0 {
        Seq::empty()
    } else {
        match json_number_bits(values.last()) {
            Some(bits) => numbers_of(values.drop_last()).push(bits),
            None => numbers_of(values.drop_last()),
        }
    }
}

/// The positions among `values`, in their order: each array, as the numbers
/// in it.
pub open spec fn positions_of(values: Seq<Value>) -> Seq<Seq<u64>>
    decreases values.len(),
{
    if values.len() == 0 {
        Seq::empty()
    } else {
        match json_items(values.last()) {
            Some(inner) => positions_of(values.drop_last()).push(numbers_of(inner)),
            None => positions_of(values.drop_last()),
        }
    }
}

/// The rings among `values`, in their order: each array, as the positions
/// in it.
pub open spec fn rings_of(values: Seq<Value>) -> Seq<Seq<Seq<u64>>>
    decreases values.len(),
{
    if values.len() == 0 {
        Seq::empty()
    } else {
        match json_items(values.last()) {
            Some(inner) => rings_of(values.drop_last()).push(positions_of(inner)),
            None => rings_of(values.drop_last()),
        }
    }
}

/// What a list of positions holds.
pub open spec fn positions_view(ring: Seq<Vec<u64>>) -> Seq<Seq<u64>> {
    Seq::new(ring.len(), |i: int| ring[i]@)
}

/// What a list of rings holds.
pub open spec fn rings_view(rings: Seq<Vec<Vec<u64>>>) -> Seq<Seq<Seq<u64>>> {
    Seq::new(rings.len(), |i: int| positions_view(rings[i]@))
}

/// Where every entry is a number, there are as many numbers as entries.
pub proof fn lemma_numbers_all_kept(values: Seq<Value>)
    requires
        all_numbers(values),
    ensures
        numbers_of(values).len() == values.len(),
        forall|i: int|
            0 <= i < values.len() ==> json_number_bits(values[i]) == Some(
                #[trigger] numbers_of(values)[i],
            ),
    decreases values.len(),
{
    if values.len() > 0 {
        let front = values.drop_last();
        assert forall|i: int| 0 <= i < front.len() implies (#[trigger] json_number_bits(
            front[i],
        )) is Some by {
            assert(front[i] == values[i]);
            assert(json_number_bits(values[i]) is Some);
        }
        lemma_numbers_all_kept(front);
        assert(json_number_bits(values[values.len() - 1]) is Some);
        assert forall|i: int| 0 <= i < values.len() implies json_number_bits(values[i]) == Some(
            #[trigger] numbers_of(values)[i],
        ) by {
            if i < front.len() {
                assert(front[i] == values[i]);
                assert(numbers_of(values)[i] == numbers_of(front)[i]);
            }
        }
    }
}

/// Where every entry is a position, there are as many positions as entries,
/// each with as many numbers as its entry has.
pub proof fn lemma_positions_all_kept(values: Seq<Value>)
    requires
        all_number_lists(values),
    ensures
        positions_of(values).len() == values.len(),
        forall|i: int|
            0 <= i < values.len() ==> (#[trigger] positions_of(values)[i]).len() == json_items(
                values[i],
            )->Some_0.len(),
    decreases values.len(),
{
    if values.len() > 0 {
        let front = values.drop_last();
        assert forall|i: int| 0 <= i < front.len() implies match #[trigger] json_items(front[i]) {
            Some(inner) => all_numbers(inner),
            None => false,
        } by {
            assert(front[i] == values[i]);
            assert(json_items(values[i]) is Some);
        }
        lemma_positions_all_kept(front);
        let last = values.len() - 1;
        assert(json_items(values[last]) is Some);
        lemma_numbers_all_kept(json_items(values[last])->Some_0);
        assert forall|i: int| 0 <= i < values.len() implies (#[trigger] positions_of(
            values,
        )[i]).len() == json_items(values[i])->Some_0.len() by {
            if i < front.len() {
                assert(front[i] == values[i]);
                assert(positions_of(values)[i] == positions_of(front)[i]);
            }
        }
    }
}

/// Reads the numbers of one position.
pub fn unwrap_numbers(values: &Vec<Value>) -> (r: Result<Vec<u64>, GeometryError>)
    ensures
        match r {
            Ok(numbers) => all_numbers(values@) && numbers@ == numbers_of(values@),
            Err(e) => !all_numbers(values@) && e == GeometryError::NotPlanar,
        },
{
    let mut numbers: Vec<u64> = Vec::new();
    let mut i: usize = 0;
    assert(values@.take(0) =~= Seq::<Value>::empty());
    while i < values.len()
        invariant
            0 <= i <= values.len(),
            forall|k: int| 0 <= k < i ==> (#[trigger] json_number_bits(values@[k])) is Some,
            numbers@ == numbers_of(values@.take(i as int)),
        decreases values.len() - i,
    {
        assert(values@.take(i + 1).drop_last() =~= values@.take(i as int));
        assert(values@.take(i + 1).last() == values@[i as int]);
        match number_bits(&values[i]) {
            Some(bits) => numbers.push(bits),
            None => {
                assert(json_number_bits(values@[i as int]) is None);
                return Err(GeometryError::NotPlanar);
            },
        }
        i = i + 1;
    }
    assert(values@.take(i as int) =~= values@);
    Ok(numbers)
}

/// Reads the positions of one ring.
pub fn unwrap_positions(values: &Vec<Value>) -> (r: Result<Vec<Vec<u64>>, GeometryError>)
    ensures
        match r {
            Ok(ring) => all_number_lists(values@) && positions_view(ring@) == positions_of(
                values@,
            ),
            Err(e) => !all_number_lists(values@) && e == GeometryError::NotPlanar,
        },
{
    let mut ring: Vec<Vec<u64>> = Vec::new();
    let mut i: usize = 0;
    assert(values@.take(0) =~= Seq::<Value>::empty());
    assert(positions_view(ring@) =~= Seq::<Seq<u64>>::empty());
    while i < values.len()
        invariant
            0 <= i <= values.len(),
            forall|k: int|
                0 <= k < i ==> match #[trigger] json_items(values@[k]) {
                    Some(inner) => all_numbers(inner),
                    None => false,
                },
            positions_view(ring@) == positions_of(values@.take(i as int)),
        decreases values.len() - i,
    {
        let ghost before = ring@;
        assert(values@.take(i + 1).drop_last() =~= values@.take(i as int));
        assert(values@.take(i + 1).last() == values@[i as int]);
        let inner: &Vec<Value> = match items(&values[i]) {
            Some(found) => found,
            None => {
                assert(json_items(values@[i as int]) is None);
                return Err(GeometryError::NotPlanar);
            },
        };
        let position: Vec<u64> = match unwrap_numbers(inner) {
            Ok(numbers) => numbers,
            Err(e) => {
                assert(json_items(values@[i as int]) == Some(inner@));
                return Err(e);
            },
        };
        ring.push(position);
        assert(positions_view(ring@) =~= positions_view(before).push(position@));
        i = i + 1;
    }
    assert(values@.take(i as int) =~= values@);
    Ok(ring)
}

/// Reads the coordinates of a geometry: its rings, their positions, and the
/// numbers of each. An entry that is no ring, no position or no number is an
/// error; how many numbers a position has is left to the caller.
pub fn unwrap_coordinates(value: &Vec<Value>) -> (r: Result<Vec<Vec<Vec<u64>>>, GeometryError>)
    ensures
        match r {
            Ok(rings) => all_positions(value@) && rings_view(rings@) == rings_of(value@),
            Err(e) => !all_positions(value@) && e == GeometryError::NotPlanar,
        },
{
    let mut rings: Vec<Vec<Vec<u64>>> = Vec::new();
    let mut i: usize = 0;
    assert(value@.take(0) =~= Seq::<Value>::empty());
    assert(rings_view(rings@) =~= Seq::<Seq<Seq<u64>>>::empty());
    while i < value.len()
        invariant
            0 <= i <= value.len(),
            forall|k: int|
                0 <= k < i ==> match #[trigger] json_items(value@[k]) {
                    Some(inner) => all_number_lists(inner),
                    None => false,
                },
            rings_view(rings@) == rings_of(value@.take(i as int)),
        decreases value.len() - i,
    {
        let ghost before = rings@;
        assert(value@.take(i + 1).drop_last() =~= value@.take(i as int));
        assert(value@.take(i + 1).last() == value@[i as int]);
        let inner: &Vec<Value> = match items(&value[i]) {
            Some(found) => found,
            None => {
                assert(json_items(value@[i as int]) is None);
                return Err(GeometryError::NotPlanar);
            },
        };
        let ring: Vec<Vec<u64>> = match unwrap_positions(inner) {
            Ok(positions) => positions,
            Err(e) => {
                assert(json_items(value@[i as int]) == Some(inner@));
                return Err(e);
            },
        };
        rings.push(ring);
        assert(rings_view(rings@) =~= rings_view(before).push(positions_view(ring@)));
        i = i + 1;
    }
    assert(value@.take(i as int) =~= value@);
    Ok(rings)
}

/// The name of the type of a geometry: the text under `type`, or no text
/// where there is none.
pub open spec fn kind_of(geometry: Value) -> Seq<char> {
    match text_at(geometry, "type"@) {
        Some(kind) => kind,
        None => Seq::empty(),
    }
}

/// Takes a geometry apart: the name of its type, and the list of its
/// coordinates. A geometry is an object with an array under `coordinates`.
pub fn geometry_parts<'a>(geometry: &'a Value) -> (r: Result<
    (String, &'a Vec<Value>),
    GeometryError,
>)
    ensures
        match r {
            Ok((kind, coordinates)) => {
                &&& json_is_object(*geometry)
                &&& items_at(*geometry, "coordinates"@) == Some(coordinates@)
                &&& kind@ == kind_of(*geometry)
            },
            Err(e) => {
                &&& e == GeometryError::NotGeometry
                &&& !json_is_object(*geometry) || items_at(*geometry, "coordinates"@) is None
            },
        },
{
    if !is_object(geometry) {
        return Err(GeometryError::NotGeometry);
    }
    let coordinates: &Vec<Value> = match items_field(geometry, "coordinates") {
        Some(found) => found,
        None => {
            return Err(GeometryError::NotGeometry);
        },
    };
    let kind: String = match text_field(geometry, "type") {
        Some(found) => found,
        None => String::new(),
    };
    Ok((kind, coordinates))
}

/// Reads a geometry: the name of its type, and its coordinates as bit
/// patterns.
pub fn unwrap_geometry(geometry: &Value) -> (r: Result<
    (String, Vec<Vec<Vec<u64>>>),
    GeometryError,
>)
    ensures
        match r {
            Ok((kind, rings)) => {
                &&& json_is_object(*geometry)
                &&& kind@ == kind_of(*geometry)
                &&& items_at(*geometry, "coordinates"@) matches Some(coordinates)
                &&& all_positions(coordinates)
                &&& rings_view(rings@) == rings_of(coordinates)
            },
            Err(e) => match items_at(*geometry, "coordinates"@) {
                Some(coordinates) => if json_is_object(*geometry) {
                    e == GeometryError::NotPlanar && !all_positions(coordinates)
                } else {
                    e == GeometryError::NotGeometry
                },
                None => e == GeometryError::NotGeometry,
            },
        },
{
    let (kind, coordinates) = match geometry_parts(geometry) {
        Ok(parts) => parts,
        Err(e) => {
            return Err(e);
        },
    };
    match unwrap_coordinates(coordinates) {
        Ok(rings) => Ok((kind, rings)),
        Err(e) => Err(e),
    }
}

} // verus!
