//! The closed value lists of the GLDF schema, by id.
//!
//! A value id is the position of the value in its list.

use gldf_rs::validation::xsd_enums::canonical_set_for;
use vstd::prelude::*;

verus! {

/// The closed value list of the element with the given name, where the
/// schema has one.
pub uninterp spec fn xsd_values(element: Seq<char>) -> Option<Seq<Seq<char>>>;

/// The texts of a sequence of string slices.
pub open spec fn str_texts(v: Seq<&'static str>) -> Seq<Seq<char>> {
    v.map_values(|s: &'static str| s@)
}

/// `gldf_rs::validation::xsd_enums::canonical_set_for` gives the closed
/// value list of an element by its name. No list holds a value twice,
/// none has more values than a byte can number, and none holds the value
/// `(unspecified)`.
pub assume_specification[ canonical_set_for ](xsd_name: &str) -> (r: Option<
    &'static [&'static str],
>)
    ensures
        match r {
            Some(v) => xsd_values(xsd_name@) == Some(str_texts(v@)),
            None => xsd_values(xsd_name@) is None,
        },
        r matches Some(v) ==> v@.len() <= 256 && str_texts(v@).no_duplicates() && !str_texts(
            v@,
        ).contains("(unspecified)"@),
;

/// The closed lists that documents and filters refer to.
#[derive(Clone, Copy, PartialEq, Eq, Debug, Structural)]
pub enum Axis {
    /// `Marketing/Applications/Application`.
    Application,
    /// `Marketing/Labels/Label`.
    Label,
    /// `Electrical/IngressProtectionIPCode`.
    IpCode,
    /// `Electrical/ElectricalSafetyClass`.
    SafetyClass,
    /// `Mechanical/IKRating`.
    IkRating,
    /// `Mechanical/ProductForm`.
    ProductForm,
    /// `Mechanical/Adjustabilities/Adjustability`.
    Adjustability,
    /// `Electrical/LightDistribution`.
    LightDistribution,
    /// `LightSourceMaintenance/Cie97LampType`.
    LampType,
    /// `ControlGear/Interfaces/Interface`.
    ControlGearInterface,
    /// `Emergency/DedicatedEmergencyLightingType`.
    EmergencyLightingType,
}

/// The name of the element that an axis stands for.
pub open spec fn element_name(axis: Axis) -> Seq<char> {
    match axis {
        Axis::Application => "Application"@,
        Axis::Label => "Label"@,
        Axis::IpCode => "IngressProtectionIPCode"@,
        Axis::SafetyClass => "ElectricalSafetyClass"@,
        Axis::IkRating => "IKRating"@,
        Axis::ProductForm => "ProductForm"@,
        Axis::Adjustability => "Adjustability"@,
        Axis::LightDistribution => "LightDistribution"@,
        Axis::LampType => "Cie97LampType"@,
        Axis::ControlGearInterface => "Interface"@,
        Axis::EmergencyLightingType => "DedicatedEmergencyLightingType"@,
    }
}

/// The values of an axis, in order.
pub open spec fn axis_values(axis: Axis) -> Seq<Seq<char>> {
    match xsd_values(element_name(axis)) {
        Some(v) => v,
        None => Seq::empty(),
    }
}

/// The value that `id` stands for on an axis.
pub open spec fn value_text(axis: Axis, id: u8) -> Option<Seq<char>> {
    if id < axis_values(axis).len() {
        Some(axis_values(axis)[id as int])
    } else {
        None
    }
}

/// The first position at or behind `from` where `vals` holds `s`.
pub open spec fn position_from(vals: Seq<Seq<char>>, s: Seq<char>, from: int) -> Option<int>
    decreases vals.len() - from,
{
    if from < 0 || from >= vals.len() {
        None
    } else if vals[from] == s {
        Some(from)
    } else {
        position_from(vals, s, from + 1)
    }
}

/// Whether the values of an axis can be told apart by id and text, and
/// from the mark for what is not specified.
pub open spec fn is_closed_list(axis: Axis) -> bool {
    &&& axis_values(axis).no_duplicates()
    &&& axis_values(axis).len() <= 256
    &&& !axis_values(axis).contains("(unspecified)"@)
}

/// The id of the value `s` on an axis, where `s` is one of its values.
pub open spec fn value_id(axis: Axis, s: Seq<char>) -> Option<u8> {
    match position_from(axis_values(axis), s, 0) {
        Some(i) => Some(i as u8),
        None => None,
    }
}

/// Where `vals` holds no value twice, a value is found where it stands.
proof fn position_of_element(vals: Seq<Seq<char>>, at: int, from: int)
    requires
        vals.no_duplicates(),
        0 <= from <= at < vals.len(),
    ensures
        position_from(vals, vals[at], from) == Some(at),
    decreases at - from,
{
    if from < at {
        position_of_element(vals, at, from + 1);
    }
}

/// The text of an id leads back to the id.
pub proof fn ids_round_trip(axis: Axis, id: u8)
    requires
        is_closed_list(axis),
        value_text(axis, id) is Some,
    ensures
        value_id(axis, value_text(axis, id)->0) == Some(id),
{
    position_of_element(axis_values(axis), id as int, 0);
}

/// The id of a value stands for the value.
pub proof fn ids_stand_for_values(axis: Axis, s: Seq<char>)
    requires
        is_closed_list(axis),
        value_id(axis, s) is Some,
    ensures
        value_text(axis, value_id(axis, s)->0) == Some(s),
{
    position_holds(axis_values(axis), s, 0);
}

/// A position that is found holds the value.
proof fn position_holds(vals: Seq<Seq<char>>, s: Seq<char>, from: int)
    requires
        0 <= from,
        position_from(vals, s, from) is Some,
    ensures
        from <= position_from(vals, s, from)->0 < vals.len(),
        vals[position_from(vals, s, from)->0] == s,
    decreases vals.len() - from,
{
    if vals[from] != s {
        position_holds(vals, s, from + 1);
    }
}

/// Every axis takes its values from the element that it is about: an id
/// below the number of its values stands for the value at that place, and
/// no other id stands for any.
pub proof fn axes_take_their_values_from_elements(id: u8)
    ensures
        at_place(xsd_values("Application"@), id) == value_text(Axis::Application, id),
        at_place(xsd_values("Label"@), id) == value_text(Axis::Label, id),
        at_place(xsd_values("IngressProtectionIPCode"@), id) == value_text(Axis::IpCode, id),
        at_place(xsd_values("ElectricalSafetyClass"@), id) == value_text(Axis::SafetyClass, id),
        at_place(xsd_values("IKRating"@), id) == value_text(Axis::IkRating, id),
        at_place(xsd_values("ProductForm"@), id) == value_text(Axis::ProductForm, id),
        at_place(xsd_values("Adjustability"@), id) == value_text(Axis::Adjustability, id),
        at_place(xsd_values("LightDistribution"@), id) == value_text(Axis::LightDistribution, id),
        at_place(xsd_values("Cie97LampType"@), id) == value_text(Axis::LampType, id),
        at_place(xsd_values("Interface"@), id) == value_text(Axis::ControlGearInterface, id),
        at_place(xsd_values("DedicatedEmergencyLightingType"@), id) == value_text(Axis::EmergencyLightingType, id),
{
}

/// The value at a place of a list that may be missing.
pub open spec fn at_place(values: Option<Seq<Seq<char>>>, id: u8) -> Option<Seq<char>> {
    if values is Some && id < values->0.len() {
        Some(values->0[id as int])
    } else {
        None
    }
}

/// The name of the element that an axis stands for.
pub fn element_of(axis: Axis) -> (r: &'static str)
    ensures
        r@ == element_name(axis),
{
    match axis {
        Axis::Application => "Application",
        Axis::Label => "Label",
        Axis::IpCode => "IngressProtectionIPCode",
        Axis::SafetyClass => "ElectricalSafetyClass",
        Axis::IkRating => "IKRating",
        Axis::ProductForm => "ProductForm",
        Axis::Adjustability => "Adjustability",
        Axis::LightDistribution => "LightDistribution",
        Axis::LampType => "Cie97LampType",
        Axis::ControlGearInterface => "Interface",
        Axis::EmergencyLightingType => "DedicatedEmergencyLightingType",
    }
}

/// The value that `id` stands for on `axis`. A value that comes back
/// resolves to the same id again.
pub fn value_of(axis: Axis, id: u8) -> (r: Option<&'static str>)
    ensures
        match r {
            Some(v) => value_text(axis, id) == Some(v@),
            None => value_text(axis, id) is None,
        },
        r matches Some(v) ==> value_id(axis, v@) == Some(id),
{
    match canonical_set_for(element_of(axis)) {
        Some(vals) => {
            if (id as usize) < vals.len() {
                proof {
                    assert(str_texts(vals@)[id as int] == vals@[id as int]@);
                    position_of_element(axis_values(axis), id as int, 0);
                }
                Some(vals[id as usize])
            } else {
                None
            }
        },
        None => None,
    }
}

/// The id of the value `s` on `axis`; `None` where `s` is not one of
/// the axis' values. The id stands for that value again.
pub fn id_of(axis: Axis, s: &str) -> (r: Option<u8>)
    ensures
        r == value_id(axis, s@),
        r matches Some(id) ==> value_text(axis, id) == Some(s@),
        r is None <==> !axis_values(axis).contains(s@),
        is_closed_list(axis),
{
    match canonical_set_for(element_of(axis)) {
        Some(vals) => {
            let mut i: usize = 0;
            while i < vals.len()
                invariant
                    i <= vals@.len(),
                    vals@.len() <= 256,
                    axis_values(axis) == str_texts(vals@),
                    is_closed_list(axis),
                    position_from(axis_values(axis), s@, 0) == position_from(
                        axis_values(axis),
                        s@,
                        i as int,
                    ),
                    forall|j: int| 0 <= j < i ==> axis_values(axis)[j] != s@,
                decreases vals@.len() - i,
            {
                proof {
                    assert(axis_values(axis)[i as int] == vals@[i as int]@);
                }
                if crate::text::same_text(vals[i], s) {
                    proof {
                        assert(axis_values(axis).contains(s@));
                    }
                    return Some(i as u8);
                }
                i += 1;
            }
            None
        },
        None => None,
    }
}

} // verus!
