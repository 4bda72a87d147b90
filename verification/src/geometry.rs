//! How and where a variant is mounted.

use crate::doc::{MountingPlace, MountingType};
use crate::product::{CeilingMounting, GroundMounting, Mountings, WallMounting, WorkingPlaneMounting};
use vstd::prelude::*;

verus! {

/// How and where a variant is mounted.
#[derive(Clone, Copy, PartialEq, Eq, Debug, Structural)]
pub struct MountingFields {
    /// The surface.
    pub place: MountingPlace,
    /// How it is fixed there.
    pub kind: MountingType,
    /// Depth of the recess (mm); `None` unless the luminaire is set in.
    pub recessed_depth_mm: Option<u32>,
}

/// Nothing is declared.
pub open spec fn unknown_mounting() -> MountingFields {
    MountingFields {
        place: MountingPlace::Unknown,
        kind: MountingType::Unknown,
        recessed_depth_mm: None,
    }
}

impl MountingFields {
    /// What holds where nothing is declared.
    pub fn unknown() -> (r: MountingFields)
        ensures
            r == unknown_mounting(),
    {
        MountingFields {
            place: MountingPlace::Unknown,
            kind: MountingType::Unknown,
            recessed_depth_mm: None,
        }
    }
}

/// The depth of a recess, a negative one counting as none.
pub open spec fn depth_of(d: Option<i32>) -> Option<u32> {
    match d {
        Some(n) => Some(
            if n < 0 {
                0u32
            } else {
                n as u32
            },
        ),
        None => None,
    }
}

/// How a luminaire is fixed to a ceiling.
pub open spec fn ceiling_kind(c: CeilingMounting) -> MountingType {
    if c.recessed is Some {
        MountingType::Recessed
    } else if c.surface_mounted {
        MountingType::SurfaceMounted
    } else if c.pendant {
        MountingType::Pendant
    } else {
        MountingType::Unknown
    }
}

/// How a luminaire is fixed to a wall.
pub open spec fn wall_kind(w: WallMounting) -> MountingType {
    if w.recessed is Some {
        MountingType::Recessed
    } else if w.surface_mounted {
        MountingType::SurfaceMounted
    } else {
        MountingType::Unknown
    }
}

/// How a luminaire stands on the working plane.
pub open spec fn plane_kind(w: WorkingPlaneMounting) -> MountingType {
    if w.free_standing {
        MountingType::FreeStanding
    } else {
        MountingType::Unknown
    }
}

/// How a luminaire is fixed to the ground.
pub open spec fn ground_kind(g: GroundMounting) -> MountingType {
    if g.recessed is Some {
        MountingType::Recessed
    } else if g.pole_top {
        MountingType::PoleTop
    } else if g.pole_integrated {
        MountingType::PoleIntegrated
    } else if g.free_standing {
        MountingType::FreeStanding
    } else if g.surface_mounted {
        MountingType::SurfaceMounted
    } else {
        MountingType::Unknown
    }
}

/// How and where a variant is mounted. Of several surfaces the ceiling
/// comes first, then the wall, the working plane and the ground.
pub open spec fn mounting_of(m: Option<Mountings>) -> MountingFields {
    match m {
        None => unknown_mounting(),
        Some(m) => if m.ceiling is Some {
            MountingFields {
                place: MountingPlace::Ceiling,
                kind: ceiling_kind(m.ceiling->0),
                recessed_depth_mm: depth_of(m.ceiling->0.recessed),
            }
        } else if m.wall is Some {
            MountingFields {
                place: MountingPlace::Wall,
                kind: wall_kind(m.wall->0),
                recessed_depth_mm: depth_of(m.wall->0.recessed),
            }
        } else if m.working_plane is Some {
            MountingFields {
                place: MountingPlace::WorkingPlane,
                kind: plane_kind(m.working_plane->0),
                recessed_depth_mm: None,
            }
        } else if m.ground is Some {
            MountingFields {
                place: MountingPlace::Ground,
                kind: ground_kind(m.ground->0),
                recessed_depth_mm: depth_of(m.ground->0.recessed),
            }
        } else {
            unknown_mounting()
        },
    }
}

/// A depth comes with a luminaire that is set in, and with no other.
pub proof fn depth_means_recessed(m: Option<Mountings>)
    ensures
        mounting_of(m).recessed_depth_mm is Some <==> mounting_of(m).kind
            == MountingType::Recessed,
{
}

/// The surface is unknown exactly where none is declared.
pub proof fn place_is_known(m: Option<Mountings>)
    ensures
        mounting_of(m).place == MountingPlace::Unknown <==> (m is None || (m->0.ceiling is None
            && m->0.wall is None && m->0.working_plane is None && m->0.ground is None)),
{
}

/// A mounting is taken from the first surface that is declared: what is
/// declared for the surfaces behind it does not matter.
pub proof fn surfaces_have_their_order(m: Mountings)
    ensures
        m.ceiling is Some ==> mounting_of(Some(m)).place == MountingPlace::Ceiling && mounting_of(
            Some(m),
        ) == mounting_of(Some(Mountings { wall: None, working_plane: None, ground: None, ..m })),
        m.ceiling is None && m.wall is Some ==> mounting_of(Some(m)).place == MountingPlace::Wall
            && mounting_of(Some(m)) == mounting_of(
            Some(Mountings { working_plane: None, ground: None, ..m }),
        ),
        m.ceiling is None && m.wall is None && m.working_plane is Some ==> mounting_of(
            Some(m),
        ).place == MountingPlace::WorkingPlane && mounting_of(Some(m)) == mounting_of(
            Some(Mountings { ground: None, ..m }),
        ),
        m.ceiling is None && m.wall is None && m.working_plane is None && m.ground is Some
            ==> mounting_of(Some(m)).place == MountingPlace::Ground,
{
}

/// What is set in is recessed, whatever else is declared, to the depth
/// that is declared; a negative depth counts as none at all.
pub proof fn recess_goes_before_all(m: Mountings, d: i32)
    requires
        mounting_of(Some(m)).place == MountingPlace::Ceiling ==> m.ceiling->0.recessed == Some(d),
        mounting_of(Some(m)).place == MountingPlace::Wall ==> m.wall->0.recessed == Some(d),
        mounting_of(Some(m)).place == MountingPlace::Ground ==> m.ground->0.recessed == Some(d),
        mounting_of(Some(m)).place != MountingPlace::WorkingPlane,
        mounting_of(Some(m)).place != MountingPlace::Unknown,
    ensures
        mounting_of(Some(m)).kind == MountingType::Recessed,
        mounting_of(Some(m)).recessed_depth_mm is Some,
        d >= 0 ==> mounting_of(Some(m)).recessed_depth_mm->0 == d,
        d < 0 ==> mounting_of(Some(m)).recessed_depth_mm->0 == 0,
{
}

/// Where a single way of fixing is declared, it is that one.
pub proof fn single_fixings_are_kept(c: CeilingMounting, w: WallMounting, p: WorkingPlaneMounting)
    requires
        c.recessed is None,
        w.recessed is None,
    ensures
        ({
            let none = Mountings { ceiling: None, wall: None, working_plane: None, ground: None };
            let ceiling = mounting_of(Some(Mountings { ceiling: Some(c), ..none })).kind;
            let wall = mounting_of(Some(Mountings { wall: Some(w), ..none })).kind;
            let plane = mounting_of(Some(Mountings { working_plane: Some(p), ..none })).kind;
            &&& ceiling == MountingType::SurfaceMounted <==> c.surface_mounted
            &&& ceiling == MountingType::Pendant <==> c.pendant && !c.surface_mounted
            &&& ceiling == MountingType::Unknown <==> !c.pendant && !c.surface_mounted
            &&& wall == MountingType::SurfaceMounted <==> w.surface_mounted
            &&& wall == MountingType::Unknown <==> !w.surface_mounted
            &&& plane == MountingType::FreeStanding <==> p.free_standing
            &&& plane == MountingType::Unknown <==> !p.free_standing
        }),
{
}

/// On the ground a pole goes before standing freely, and that before a
/// surface; nothing declared is unknown.
pub proof fn ground_fixings_have_their_order(g: GroundMounting)
    requires
        g.recessed is None,
    ensures
        ({
            let m = Mountings { ceiling: None, wall: None, working_plane: None, ground: Some(g) };
            let kind = mounting_of(Some(m)).kind;
            let pole = g.pole_top || g.pole_integrated;
            &&& kind == MountingType::PoleTop <==> g.pole_top
            &&& kind == MountingType::PoleIntegrated <==> g.pole_integrated && !g.pole_top
            &&& kind == MountingType::FreeStanding <==> g.free_standing && !pole
            &&& kind == MountingType::SurfaceMounted <==> g.surface_mounted && !g.free_standing
                && !pole
            &&& kind == MountingType::Unknown <==> !g.surface_mounted && !g.free_standing && !pole
        }),
{
}

/// The depth of a recess.
fn depth(d: i32) -> (r: u32)
    ensures
        Some(r) == depth_of(Some(d)),
{
    if d < 0 {
        0
    } else {
        d as u32
    }
}

/// How and where a variant is mounted.
pub fn variant_mounting(mountings: &Option<Mountings>) -> (r: MountingFields)
    ensures
        r == mounting_of(*mountings),
{
    let m: &Mountings = match mountings {
        Some(m) => m,
        None => {
            return MountingFields::unknown();
        },
    };
    if let Some(c) = &m.ceiling {
        let place: MountingPlace = MountingPlace::Ceiling;
        if let Some(d) = c.recessed {
            return MountingFields {
                place,
                kind: MountingType::Recessed,
                recessed_depth_mm: Some(depth(d)),
            };
        }
        let kind: MountingType = if c.surface_mounted {
            MountingType::SurfaceMounted
        } else if c.pendant {
            MountingType::Pendant
        } else {
            MountingType::Unknown
        };
        return MountingFields { place, kind, recessed_depth_mm: None };
    }
    if let Some(w) = &m.wall {
        let place: MountingPlace = MountingPlace::Wall;
        if let Some(d) = w.recessed {
            return MountingFields {
                place,
                kind: MountingType::Recessed,
                recessed_depth_mm: Some(depth(d)),
            };
        }
        let kind: MountingType = if w.surface_mounted {
            MountingType::SurfaceMounted
        } else {
            MountingType::Unknown
        };
        return MountingFields { place, kind, recessed_depth_mm: None };
    }
    if let Some(w) = &m.working_plane {
        let kind: MountingType = if w.free_standing {
            MountingType::FreeStanding
        } else {
            MountingType::Unknown
        };
        return MountingFields {
            place: MountingPlace::WorkingPlane,
            kind,
            recessed_depth_mm: None,
        };
    }
    if let Some(g) = &m.ground {
        let place: MountingPlace = MountingPlace::Ground;
        if let Some(d) = g.recessed {
            return MountingFields {
                place,
                kind: MountingType::Recessed,
                recessed_depth_mm: Some(depth(d)),
            };
        }
        let kind: MountingType = if g.pole_top {
            MountingType::PoleTop
        } else if g.pole_integrated {
            MountingType::PoleIntegrated
        } else if g.free_standing {
            MountingType::FreeStanding
        } else if g.surface_mounted {
            MountingType::SurfaceMounted
        } else {
            MountingType::Unknown
        };
        return MountingFields { place, kind, recessed_depth_mm: None };
    }
    MountingFields::unknown()
}

} // verus!
