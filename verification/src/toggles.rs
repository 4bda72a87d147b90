//! Choosing and dropping facet values in a filter.
//!
//! A value that is chosen again is dropped. The last value of a list
//! takes the place of one that is dropped before it.

use crate::doc::{MountingPlace, MountingType};
use crate::facets::{place_text, type_text};
use crate::filter::{Filter, FilterView};
use crate::ids::IdList;
use crate::tables::{axis_values, id_of, is_closed_list, value_id, Axis};
use crate::text::{owned, same_text, texts};
use vstd::prelude::*;

verus! {

// ---------------------------------------------------------------------
// Lists
// ---------------------------------------------------------------------

/// The place of the first `x` in `s`, from `i` on.
pub open spec fn place_from<T>(s: Seq<T>, x: T, i: int) -> Option<int>
    decreases s.len() - i,
{
    if i < 0 || i >= s.len() {
        None
    } else if s[i] == x {
        Some(i)
    } else {
        place_from(s, x, i + 1)
    }
}

/// A list without the element at `i`, whose place the last one takes.
pub open spec fn swapped_out<T>(s: Seq<T>, i: int) -> Seq<T> {
    s.update(i, s.last()).drop_last()
}

/// A list without the first `x`.
pub open spec fn dropped<T>(s: Seq<T>, x: T) -> Seq<T> {
    match place_from(s, x, 0) {
        Some(i) => swapped_out(s, i),
        None => s,
    }
}

/// A list with `x` dropped if it was there, and added if not.
pub open spec fn toggled<T>(s: Seq<T>, x: T) -> Seq<T> {
    match place_from(s, x, 0) {
        Some(i) => swapped_out(s, i),
        None => s.push(x),
    }
}

/// A list with `x` added unless it was there.
pub open spec fn joined<T>(s: Seq<T>, x: T) -> Seq<T> {
    if s.contains(x) {
        s
    } else {
        s.push(x)
    }
}

/// The first place is one at which the element stands.
pub proof fn place_is_exact<T>(s: Seq<T>, x: T, i: int)
    requires
        0 <= i,
    ensures
        match place_from(s, x, i) {
            Some(k) => i <= k < s.len() && s[k] == x && forall|j: int|
                i <= j < k ==> s[j] != x,
            None => forall|j: int| i <= j < s.len() ==> s[j] != x,
        },
    decreases s.len() - i,
{
    if i < s.len() && s[i] != x {
        place_is_exact(s, x, i + 1);
    }
}

/// A toggled list without duplicates has none, and holds the element
/// exactly if it did not before.
pub proof fn toggling_flips<T>(s: Seq<T>, x: T)
    requires
        s.no_duplicates(),
    ensures
        toggled(s, x).no_duplicates(),
        toggled(s, x).contains(x) <==> !s.contains(x),
        forall|y: T| y != x ==> (#[trigger] toggled(s, x).contains(y) <==> s.contains(y)),
{
    place_is_exact(s, x, 0);
    let t = toggled(s, x);
    match place_from(s, x, 0) {
        Some(i) => {
            let last = s.len() - 1;
            assert(t.len() == s.len() - 1);
            assert forall|k: int| 0 <= k < t.len() implies t[k] == (if k == i {
                s[last]
            } else {
                s[k]
            }) by {}
            assert forall|y: T| y != x && s.contains(y) implies #[trigger] t.contains(y) by {
                let k = choose|k: int| 0 <= k < s.len() && s[k] == y;
                if k == last {
                    assert(t[i] == y);
                } else {
                    assert(t[k] == y);
                }
            }
            assert forall|y: T| #[trigger] t.contains(y) implies s.contains(y) && y != x by {
                let k = choose|k: int| 0 <= k < t.len() && t[k] == y;
                if k == i {
                    assert(s[last] == y);
                } else {
                    assert(s[k] == y);
                }
            }
        },
        None => {
            assert(t[s.len() as int] == x);
            assert forall|y: T| s.contains(y) implies #[trigger] t.contains(y) by {
                let k = choose|k: int| 0 <= k < s.len() && s[k] == y;
                assert(t[k] == y);
            }
        },
    }
}

/// Toggling a new element twice leaves a list as it was.
pub proof fn toggling_twice_restores<T>(s: Seq<T>, x: T)
    requires
        !s.contains(x),
    ensures
        toggled(toggled(s, x), x) == s,
{
    place_is_exact(s, x, 0);
    let t = s.push(x);
    assert(toggled(s, x) == t);
    place_is_exact(t, x, 0);
    match place_from(t, x, 0) {
        Some(k) => {
            if k < s.len() {
                assert(s[k] == x);
            }
            assert(swapped_out(t, k) =~= s);
        },
        None => {
            assert(t[s.len() as int] == x);
        },
    }
}

/// The place of an id in a list.
fn find_id(list: &IdList, id: u8) -> (r: Option<usize>)
    ensures
        place_from(list@, id, 0) == (match r {
            Some(i) => Some(i as int),
            None => None,
        }),
        r matches Some(i) ==> i < list@.len(),
{
    let mut i: usize = 0;
    while i < list.len()
        invariant
            i <= list@.len(),
            place_from(list@, id, 0) == place_from(list@, id, i as int),
        decreases list@.len() - i,
    {
        if list.get(i) == id {
            return Some(i);
        }
        i += 1;
    }
    None
}

/// Drops an id that is there, and adds one that is not.
pub fn toggle_id(slot: &mut IdList, id: u8)
    ensures
        final(slot)@ == toggled(old(slot)@, id),
{
    match find_id(slot, id) {
        Some(i) => {
            slot.swap_remove(i);
        },
        None => {
            slot.push(id);
        },
    }
}

/// Drops the id of a value.
pub fn remove_id(slot: &mut IdList, axis: Axis, value: &str)
    ensures
        final(slot)@ == (match value_id(axis, value@) {
            Some(id) => dropped(old(slot)@, id),
            None => old(slot)@,
        }),
        value_id(axis, value@) is None <==> !axis_values(axis).contains(value@),
        is_closed_list(axis),
{
    match id_of(axis, value) {
        Some(id) => match find_id(slot, id) {
            Some(i) => {
                slot.swap_remove(i);
            },
            None => {},
        },
        None => {},
    }
}

/// The place of a mounting place in a list.
fn find_place(list: &Vec<MountingPlace>, x: MountingPlace) -> (r: Option<usize>)
    ensures
        place_from(list@, x, 0) == (match r {
            Some(i) => Some(i as int),
            None => None,
        }),
        r matches Some(i) ==> i < list@.len(),
{
    let mut i: usize = 0;
    while i < list.len()
        invariant
            i <= list@.len(),
            place_from(list@, x, 0) == place_from(list@, x, i as int),
        decreases list@.len() - i,
    {
        if list[i] == x {
            return Some(i);
        }
        i += 1;
    }
    None
}

/// The place of a mounting type in a list.
fn find_type(list: &Vec<MountingType>, x: MountingType) -> (r: Option<usize>)
    ensures
        place_from(list@, x, 0) == (match r {
            Some(i) => Some(i as int),
            None => None,
        }),
        r matches Some(i) ==> i < list@.len(),
{
    let mut i: usize = 0;
    while i < list.len()
        invariant
            i <= list@.len(),
            place_from(list@, x, 0) == place_from(list@, x, i as int),
        decreases list@.len() - i,
    {
        if list[i] == x {
            return Some(i);
        }
        i += 1;
    }
    None
}

/// The place of a text in a list.
fn find_text(list: &Vec<String>, x: &str) -> (r: Option<usize>)
    ensures
        place_from(texts(list@), x@, 0) == (match r {
            Some(i) => Some(i as int),
            None => None,
        }),
        r matches Some(i) ==> i < list@.len(),
{
    let ghost all = texts(list@);
    let mut i: usize = 0;
    while i < list.len()
        invariant
            i <= list@.len(),
            all == texts(list@),
            place_from(all, x@, 0) == place_from(all, x@, i as int),
        decreases list@.len() - i,
    {
        proof {
            assert(all[i as int] == list@[i as int]@);
        }
        if same_text(list[i].as_str(), x) {
            return Some(i);
        }
        i += 1;
    }
    None
}

/// Drops a mounting place that is there, and adds one that is not.
pub fn toggle_place(slot: &mut Vec<MountingPlace>, x: MountingPlace)
    ensures
        final(slot)@ == toggled(old(slot)@, x),
{
    match find_place(slot, x) {
        Some(i) => {
            slot.swap_remove(i);
        },
        None => {
            slot.push(x);
        },
    }
}

/// Drops a mounting type that is there, and adds one that is not.
pub fn toggle_type(slot: &mut Vec<MountingType>, x: MountingType)
    ensures
        final(slot)@ == toggled(old(slot)@, x),
{
    match find_type(slot, x) {
        Some(i) => {
            slot.swap_remove(i);
        },
        None => {
            slot.push(x);
        },
    }
}

/// Drops a mounting place.
pub fn remove_place(slot: &mut Vec<MountingPlace>, x: MountingPlace)
    ensures
        final(slot)@ == dropped(old(slot)@, x),
{
    match find_place(slot, x) {
        Some(i) => {
            slot.swap_remove(i);
        },
        None => {},
    }
}

/// Drops a mounting type.
pub fn remove_type(slot: &mut Vec<MountingType>, x: MountingType)
    ensures
        final(slot)@ == dropped(old(slot)@, x),
{
    match find_type(slot, x) {
        Some(i) => {
            slot.swap_remove(i);
        },
        None => {},
    }
}

// ---------------------------------------------------------------------
// Names
// ---------------------------------------------------------------------

/// The mounting place with a name.
pub open spec fn place_named(s: Seq<char>) -> Option<MountingPlace> {
    if s == "Ceiling"@ {
        Some(MountingPlace::Ceiling)
    } else if s == "Wall"@ {
        Some(MountingPlace::Wall)
    } else if s == "WorkingPlane"@ {
        Some(MountingPlace::WorkingPlane)
    } else if s == "Ground"@ {
        Some(MountingPlace::Ground)
    } else if s == "Unknown"@ {
        Some(MountingPlace::Unknown)
    } else {
        None
    }
}

/// The mounting type with a name.
pub open spec fn type_named(s: Seq<char>) -> Option<MountingType> {
    if s == "Recessed"@ {
        Some(MountingType::Recessed)
    } else if s == "SurfaceMounted"@ {
        Some(MountingType::SurfaceMounted)
    } else if s == "Pendant"@ {
        Some(MountingType::Pendant)
    } else if s == "FreeStanding"@ {
        Some(MountingType::FreeStanding)
    } else if s == "PoleTop"@ {
        Some(MountingType::PoleTop)
    } else if s == "PoleIntegrated"@ {
        Some(MountingType::PoleIntegrated)
    } else if s == "Unknown"@ {
        Some(MountingType::Unknown)
    } else {
        None
    }
}

/// Every mounting place is found by its name.
pub proof fn place_names_round_trip(p: MountingPlace)
    ensures
        place_named(place_text(p)) == Some(p),
{
    reveal_strlit("Ceiling");
    reveal_strlit("Wall");
    reveal_strlit("WorkingPlane");
    reveal_strlit("Ground");
    reveal_strlit("Unknown");
    assert("Ceiling"@.len() == 7 && "Wall"@.len() == 4 && "WorkingPlane"@.len() == 12);
    assert("Ground"@.len() == 6 && "Unknown"@.len() == 7);
    assert("Ceiling"@[0] == 'C' && "Unknown"@[0] == 'U');
}

/// Every mounting type is found by its name.
pub proof fn type_names_round_trip(t: MountingType)
    ensures
        type_named(type_text(t)) == Some(t),
{
    reveal_strlit("Recessed");
    reveal_strlit("SurfaceMounted");
    reveal_strlit("Pendant");
    reveal_strlit("FreeStanding");
    reveal_strlit("PoleTop");
    reveal_strlit("PoleIntegrated");
    reveal_strlit("Unknown");
    assert("Recessed"@.len() == 8 && "SurfaceMounted"@.len() == 14 && "Pendant"@.len() == 7);
    assert("FreeStanding"@.len() == 12 && "PoleTop"@.len() == 7);
    assert("PoleIntegrated"@.len() == 14 && "Unknown"@.len() == 7);
    assert("Pendant"@[1] == 'e' && "PoleTop"@[1] == 'o' && "Unknown"@[1] == 'n');
    assert("PoleIntegrated"@[0] == 'P' && "SurfaceMounted"@[0] == 'S');
}

/// The mounting place with a name.
pub fn mounting_place_from_str(s: &str) -> (r: Option<MountingPlace>)
    ensures
        r == place_named(s@),
{
    if same_text(s, "Ceiling") {
        Some(MountingPlace::Ceiling)
    } else if same_text(s, "Wall") {
        Some(MountingPlace::Wall)
    } else if same_text(s, "WorkingPlane") {
        Some(MountingPlace::WorkingPlane)
    } else if same_text(s, "Ground") {
        Some(MountingPlace::Ground)
    } else if same_text(s, "Unknown") {
        Some(MountingPlace::Unknown)
    } else {
        None
    }
}

/// The mounting type with a name.
pub fn mounting_type_from_str(s: &str) -> (r: Option<MountingType>)
    ensures
        r == type_named(s@),
{
    if same_text(s, "Recessed") {
        Some(MountingType::Recessed)
    } else if same_text(s, "SurfaceMounted") {
        Some(MountingType::SurfaceMounted)
    } else if same_text(s, "Pendant") {
        Some(MountingType::Pendant)
    } else if same_text(s, "FreeStanding") {
        Some(MountingType::FreeStanding)
    } else if same_text(s, "PoleTop") {
        Some(MountingType::PoleTop)
    } else if same_text(s, "PoleIntegrated") {
        Some(MountingType::PoleIntegrated)
    } else if same_text(s, "Unknown") {
        Some(MountingType::Unknown)
    } else {
        None
    }
}

// ---------------------------------------------------------------------
// Manufacturers
// ---------------------------------------------------------------------

/// The manufacturers of a filter after one is toggled. A list that runs
/// empty demands nothing.
pub open spec fn manufacturers_toggled(m: Option<Seq<Seq<char>>>, name: Seq<char>) -> Option<
    Seq<Seq<char>>,
> {
    match m {
        Some(list) => match place_from(list, name, 0) {
            Some(i) => if list.len() == 1 {
                None
            } else {
                Some(swapped_out(list, i))
            },
            None => Some(list.push(name)),
        },
        None => Some(seq![name]),
    }
}

/// The manufacturers of a filter after one is dropped.
pub open spec fn manufacturers_without(m: Option<Seq<Seq<char>>>, name: Seq<char>) -> Option<
    Seq<Seq<char>>,
> {
    match m {
        Some(list) => if dropped(list, name).len() == 0 {
            None
        } else {
            Some(dropped(list, name))
        },
        None => None,
    }
}

/// Drops a manufacturer that is there, and adds one that is not.
pub fn toggle_manufacturer(f: &mut Filter, name: &str)
    ensures
        final(f)@ == (FilterView {
            manufacturer: manufacturers_toggled(old(f)@.manufacturer, name@),
            ..old(f)@
        }),
{
    let mut list: Vec<String> = match f.manufacturer.take() {
        Some(list) => list,
        None => Vec::new(),
    };
    let ghost had = old(f).manufacturer;
    let ghost before = texts(list@);
    match find_text(&list, name) {
        Some(i) => {
            list.swap_remove(i);
            proof {
                assert(texts(list@) =~= swapped_out(before, i as int));
            }
            if list.len() > 0 {
                f.manufacturer = Some(list);
            }
        },
        None => {
            list.push(owned(name));
            proof {
                assert(texts(list@) =~= before.push(name@));
                if had is None {
                    assert(texts(list@) =~= seq![name@]);
                }
            }
            f.manufacturer = Some(list);
        },
    }
}

/// Drops a manufacturer.
pub fn remove_manufacturer(f: &mut Filter, name: &str)
    ensures
        final(f)@ == (FilterView {
            manufacturer: manufacturers_without(old(f)@.manufacturer, name@),
            ..old(f)@
        }),
{
    match f.manufacturer.take() {
        Some(list) => {
            let mut list: Vec<String> = list;
            let ghost before = texts(list@);
            match find_text(&list, name) {
                Some(i) => {
                    list.swap_remove(i);
                    proof {
                        assert(texts(list@) =~= swapped_out(before, i as int));
                    }
                },
                None => {},
            }
            proof {
                assert(texts(list@) == dropped(before, name@));
            }
            if list.len() > 0 {
                f.manufacturer = Some(list);
            }
        },
        None => {},
    }
}

} // verus!
