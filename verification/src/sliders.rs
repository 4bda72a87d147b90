//! Sliders and boxes for ranges.
//!
//! A slider has two handles on rails. The rails are what the documents
//! span; a handle stands at its rail where the filter demands nothing.

use crate::facets::{F32Bounds, U16Bounds, U32Bounds};
use crate::filter::{KeyRange, U16Range, U32Range};
use crate::keys::{finite_key, is_finite_key, nan_key, INFINITY_KEY};
use crate::near::{is_near, near};
use crate::text::{
    decimal, owned, parse_unsigned, push_text, to_decimal, trim, trimmed, unsigned_of,
};
use vstd::prelude::*;

verus! {

/// What moving a handle does to a range.
#[derive(Clone, Copy, PartialEq, Eq, Debug)]
pub enum Slide<R> {
    /// It stays as it is.
    Keep,
    /// Nothing is demanded any more.
    Clear,
    /// It becomes another one.
    To(R),
}

// ---------------------------------------------------------------------
// Numbers of sixteen bits
// ---------------------------------------------------------------------

/// The rails of a slider; both at zero where nothing is known.
pub open spec fn rails_u16(b: Option<U16Bounds>) -> (u16, u16) {
    match b {
        Some(x) => (x.min, x.max),
        None => (0, 0),
    }
}

/// The handles of a slider.
pub open spec fn handles_u16(b: Option<U16Bounds>, r: Option<U16Range>) -> (u16, u16) {
    match r {
        Some(x) => (x.lo, x.hi),
        None => rails_u16(b),
    }
}

/// A range between two handles; none where both are at their rails.
pub open spec fn settled_u16(b: Option<U16Bounds>, lo: u16, hi: u16) -> Slide<U16Range> {
    if (lo, hi) == rails_u16(b) {
        Slide::Clear
    } else {
        Slide::To(U16Range { lo, hi })
    }
}

/// The lower handle is moved to `x`: no farther than the upper one. A
/// handle that stands there already is left alone.
pub open spec fn low_moved_u16(b: Option<U16Bounds>, r: Option<U16Range>, x: u16) -> Slide<
    U16Range,
> {
    let (lo, hi) = handles_u16(b, r);
    if x == lo {
        Slide::Keep
    } else {
        settled_u16(
            b,
            if x > hi {
                hi
            } else {
                x
            },
            hi,
        )
    }
}

/// The upper handle is moved to `x`: no farther than the lower one.
pub open spec fn high_moved_u16(b: Option<U16Bounds>, r: Option<U16Range>, x: u16) -> Slide<
    U16Range,
> {
    let (lo, hi) = handles_u16(b, r);
    if x == hi {
        Slide::Keep
    } else {
        settled_u16(
            b,
            lo,
            if x < lo {
                lo
            } else {
                x
            },
        )
    }
}

/// A range that a slider sets has its ends in order, and what is shown
/// after it is set moves nothing.
pub proof fn slid_u16_is_ordered(b: Option<U16Bounds>, r: Option<U16Range>, x: u16)
    ensures
        low_moved_u16(b, r, x) matches Slide::To(s) ==> s.lo <= s.hi && low_moved_u16(
            b,
            Some(s),
            s.lo,
        ) == Slide::<U16Range>::Keep,
        high_moved_u16(b, r, x) matches Slide::To(s) ==> s.lo <= s.hi && high_moved_u16(
            b,
            Some(s),
            s.hi,
        ) == Slide::<U16Range>::Keep,
{
}

/// The lower handle goes where it is moved, up to the upper one, which
/// stays. A demand is dropped exactly where both handles end at their
/// rails, and nothing happens where the handle stands already.
pub proof fn low_handle_goes_where_it_is_moved_u16(b: Option<U16Bounds>, r: Option<U16Range>, x: u16)
    ensures
        ({
            let lo = if r is Some { r->0.lo } else if b is Some { b->0.min } else { 0 };
            let hi = if r is Some { r->0.hi } else if b is Some { b->0.max } else { 0 };
            let least = if b is Some { b->0.min } else { 0 };
            let most = if b is Some { b->0.max } else { 0 };
            let to = if x > hi { hi } else { x };
            &&& x == lo ==> low_moved_u16(b, r, x) == Slide::<U16Range>::Keep
            &&& x != lo && to == least && hi == most ==> low_moved_u16(b, r, x) == Slide::<U16Range>::Clear
            &&& x != lo && !(to == least && hi == most) ==> low_moved_u16(b, r, x) == Slide::To(U16Range {
                lo: to,
                hi,
            })
        }),
{
}

/// The upper handle goes where it is moved, down to the lower one, which
/// stays.
pub proof fn high_handle_goes_where_it_is_moved_u16(b: Option<U16Bounds>, r: Option<U16Range>, x: u16)
    ensures
        ({
            let lo = if r is Some { r->0.lo } else if b is Some { b->0.min } else { 0 };
            let hi = if r is Some { r->0.hi } else if b is Some { b->0.max } else { 0 };
            let least = if b is Some { b->0.min } else { 0 };
            let most = if b is Some { b->0.max } else { 0 };
            let to = if x < lo { lo } else { x };
            &&& x == hi ==> high_moved_u16(b, r, x) == Slide::<U16Range>::Keep
            &&& x != hi && lo == least && to == most ==> high_moved_u16(b, r, x) == Slide::<U16Range>::Clear
            &&& x != hi && !(lo == least && to == most) ==> high_moved_u16(b, r, x) == Slide::To(U16Range {
                lo,
                hi: to,
            })
        }),
{
}

/// Of two ends that are typed each bounds its own side, and an absent one
/// bounds nothing.
pub proof fn typed_ends_bound_their_sides(lo: u16, hi: u16, a: u32, c: u32)
    ensures
        range_u16(Some(lo), Some(hi)) == Some(U16Range { lo, hi }),
        range_u16(Some(lo), None) == Some(U16Range { lo, hi: 65_535 }),
        range_u16(None, Some(hi)) == Some(U16Range { lo: 0, hi }),
        range_u16(None, None) is None,
        range_u32(Some(a), Some(c)) == Some(U32Range { lo: a, hi: c }),
        range_u32(Some(a), None) == Some(U32Range { lo: a, hi: 0xffff_ffff }),
        range_u32(None, Some(c)) == Some(U32Range { lo: 0, hi: c }),
        range_u32(None, None) is None,
{
}

/// The number that a slider sends.
pub open spec fn sent(raw: Seq<char>, max: u32) -> Option<u32> {
    unsigned_of(raw, max)
}

/// The lower handle is moved.
pub fn on_min_u16(b: Option<U16Bounds>, r: Option<U16Range>, raw: &str) -> (s: Slide<U16Range>)
    ensures
        s == (match sent(raw@, 65_535) {
            Some(n) => low_moved_u16(b, r, n as u16),
            None => Slide::Keep,
        }),
{
    let x: u16 = match parse_unsigned(raw, 65_535) {
        Some(n) => n as u16,
        None => {
            return Slide::Keep;
        },
    };
    let (lo, hi) = handle_positions_u16(b, r);
    if x == lo {
        return Slide::Keep;
    }
    let x: u16 = if x > hi {
        hi
    } else {
        x
    };
    settle_u16(b, x, hi)
}

/// The upper handle is moved.
pub fn on_max_u16(b: Option<U16Bounds>, r: Option<U16Range>, raw: &str) -> (s: Slide<U16Range>)
    ensures
        s == (match sent(raw@, 65_535) {
            Some(n) => high_moved_u16(b, r, n as u16),
            None => Slide::Keep,
        }),
{
    let x: u16 = match parse_unsigned(raw, 65_535) {
        Some(n) => n as u16,
        None => {
            return Slide::Keep;
        },
    };
    let (lo, hi) = handle_positions_u16(b, r);
    if x == hi {
        return Slide::Keep;
    }
    let x: u16 = if x < lo {
        lo
    } else {
        x
    };
    settle_u16(b, lo, x)
}

/// The handles of a slider.
pub fn handle_positions_u16(b: Option<U16Bounds>, r: Option<U16Range>) -> (h: (u16, u16))
    ensures
        h == handles_u16(b, r),
{
    match r {
        Some(x) => (x.lo, x.hi),
        None => match b {
            Some(x) => (x.min, x.max),
            None => (0, 0),
        },
    }
}

/// A range between two handles.
fn settle_u16(b: Option<U16Bounds>, lo: u16, hi: u16) -> (s: Slide<U16Range>)
    ensures
        s == settled_u16(b, lo, hi),
{
    let (rail_lo, rail_hi) = handle_positions_u16(b, None);
    if lo == rail_lo && hi == rail_hi {
        Slide::Clear
    } else {
        Slide::To(U16Range { lo, hi })
    }
}

/// A range from its ends. An absent end is not bounded.
pub open spec fn range_u16(lo: Option<u16>, hi: Option<u16>) -> Option<U16Range> {
    if lo is None && hi is None {
        None
    } else {
        Some(
            U16Range {
                lo: match lo {
                    Some(x) => x,
                    None => 0,
                },
                hi: match hi {
                    Some(x) => x,
                    None => u16::MAX,
                },
            },
        )
    }
}

/// A range from its ends.
pub fn build_range_u16(lo: Option<u16>, hi: Option<u16>) -> (r: Option<U16Range>)
    ensures
        r == range_u16(lo, hi),
{
    match (lo, hi) {
        (None, None) => None,
        (Some(a), Some(b)) => Some(U16Range { lo: a, hi: b }),
        (Some(a), None) => Some(U16Range { lo: a, hi: u16::MAX }),
        (None, Some(b)) => Some(U16Range { lo: 0, hi: b }),
    }
}

/// The number that is typed into a box.
pub open spec fn typed(raw: Seq<char>, max: u32) -> Option<u32> {
    unsigned_of(trim(raw), max)
}

/// The number that is typed into a box.
fn read_box(raw: &str, max: u32) -> (r: Option<u32>)
    ensures
        r == typed(raw@, max),
{
    let t: String = trimmed(raw);
    parse_unsigned(t.as_str(), max)
}

/// A range after its lower end is typed.
pub fn edit_min_u16(r: Option<U16Range>, raw: &str) -> (s: Option<U16Range>)
    ensures
        s == range_u16(
            match typed(raw@, 65_535) {
                Some(n) => Some(n as u16),
                None => None,
            },
            match r {
                Some(x) => Some(x.hi),
                None => None,
            },
        ),
{
    let lo: Option<u16> = match read_box(raw, 65_535) {
        Some(n) => Some(n as u16),
        None => None,
    };
    let hi: Option<u16> = match r {
        Some(x) => Some(x.hi),
        None => None,
    };
    build_range_u16(lo, hi)
}

/// A range after its upper end is typed.
pub fn edit_max_u16(r: Option<U16Range>, raw: &str) -> (s: Option<U16Range>)
    ensures
        s == range_u16(
            match r {
                Some(x) => Some(x.lo),
                None => None,
            },
            match typed(raw@, 65_535) {
                Some(n) => Some(n as u16),
                None => None,
            },
        ),
{
    let hi: Option<u16> = match read_box(raw, 65_535) {
        Some(n) => Some(n as u16),
        None => None,
    };
    let lo: Option<u16> = match r {
        Some(x) => Some(x.lo),
        None => None,
    };
    build_range_u16(lo, hi)
}

// ---------------------------------------------------------------------
// Numbers of thirty-two bits
// ---------------------------------------------------------------------

/// The rails of a slider; both at zero where nothing is known.
pub open spec fn rails_u32(b: Option<U32Bounds>) -> (u32, u32) {
    match b {
        Some(x) => (x.min, x.max),
        None => (0, 0),
    }
}

/// The handles of a slider.
pub open spec fn handles_u32(b: Option<U32Bounds>, r: Option<U32Range>) -> (u32, u32) {
    match r {
        Some(x) => (x.lo, x.hi),
        None => rails_u32(b),
    }
}

/// A range between two handles; none where both are at their rails.
pub open spec fn settled_u32(b: Option<U32Bounds>, lo: u32, hi: u32) -> Slide<U32Range> {
    if (lo, hi) == rails_u32(b) {
        Slide::Clear
    } else {
        Slide::To(U32Range { lo, hi })
    }
}

/// The lower handle is moved to `x`: no farther than the upper one.
pub open spec fn low_moved_u32(b: Option<U32Bounds>, r: Option<U32Range>, x: u32) -> Slide<
    U32Range,
> {
    let (lo, hi) = handles_u32(b, r);
    if x == lo {
        Slide::Keep
    } else {
        settled_u32(
            b,
            if x > hi {
                hi
            } else {
                x
            },
            hi,
        )
    }
}

/// The upper handle is moved to `x`: no farther than the lower one.
pub open spec fn high_moved_u32(b: Option<U32Bounds>, r: Option<U32Range>, x: u32) -> Slide<
    U32Range,
> {
    let (lo, hi) = handles_u32(b, r);
    if x == hi {
        Slide::Keep
    } else {
        settled_u32(
            b,
            lo,
            if x < lo {
                lo
            } else {
                x
            },
        )
    }
}

/// A range that a slider sets has its ends in order, and what is shown
/// after it is set moves nothing.
pub proof fn slid_u32_is_ordered(b: Option<U32Bounds>, r: Option<U32Range>, x: u32)
    ensures
        low_moved_u32(b, r, x) matches Slide::To(s) ==> s.lo <= s.hi && low_moved_u32(
            b,
            Some(s),
            s.lo,
        ) == Slide::<U32Range>::Keep,
        high_moved_u32(b, r, x) matches Slide::To(s) ==> s.lo <= s.hi && high_moved_u32(
            b,
            Some(s),
            s.hi,
        ) == Slide::<U32Range>::Keep,
{
}

/// The handles of a slider.
pub fn handle_positions_u32(b: Option<U32Bounds>, r: Option<U32Range>) -> (h: (u32, u32))
    ensures
        h == handles_u32(b, r),
{
    match r {
        Some(x) => (x.lo, x.hi),
        None => match b {
            Some(x) => (x.min, x.max),
            None => (0, 0),
        },
    }
}

/// A range between two handles.
fn settle_u32(b: Option<U32Bounds>, lo: u32, hi: u32) -> (s: Slide<U32Range>)
    ensures
        s == settled_u32(b, lo, hi),
{
    let (rail_lo, rail_hi) = handle_positions_u32(b, None);
    if lo == rail_lo && hi == rail_hi {
        Slide::Clear
    } else {
        Slide::To(U32Range { lo, hi })
    }
}

/// The lower handle is moved.
pub fn on_min_u32(b: Option<U32Bounds>, r: Option<U32Range>, raw: &str) -> (s: Slide<U32Range>)
    ensures
        s == (match sent(raw@, u32::MAX) {
            Some(n) => low_moved_u32(b, r, n),
            None => Slide::Keep,
        }),
{
    let x: u32 = match parse_unsigned(raw, u32::MAX) {
        Some(n) => n,
        None => {
            return Slide::Keep;
        },
    };
    let (lo, hi) = handle_positions_u32(b, r);
    if x == lo {
        return Slide::Keep;
    }
    let x: u32 = if x > hi {
        hi
    } else {
        x
    };
    settle_u32(b, x, hi)
}

/// The upper handle is moved.
pub fn on_max_u32(b: Option<U32Bounds>, r: Option<U32Range>, raw: &str) -> (s: Slide<U32Range>)
    ensures
        s == (match sent(raw@, u32::MAX) {
            Some(n) => high_moved_u32(b, r, n),
            None => Slide::Keep,
        }),
{
    let x: u32 = match parse_unsigned(raw, u32::MAX) {
        Some(n) => n,
        None => {
            return Slide::Keep;
        },
    };
    let (lo, hi) = handle_positions_u32(b, r);
    if x == hi {
        return Slide::Keep;
    }
    let x: u32 = if x < lo {
        lo
    } else {
        x
    };
    settle_u32(b, lo, x)
}

/// The lower handle goes where it is moved, up to the upper one, which
/// stays. A demand is dropped exactly where both handles end at their
/// rails, and nothing happens where the handle stands already.
pub proof fn low_handle_goes_where_it_is_moved_u32(b: Option<U32Bounds>, r: Option<U32Range>, x: u32)
    ensures
        ({
            let lo = if r is Some { r->0.lo } else if b is Some { b->0.min } else { 0 };
            let hi = if r is Some { r->0.hi } else if b is Some { b->0.max } else { 0 };
            let least = if b is Some { b->0.min } else { 0 };
            let most = if b is Some { b->0.max } else { 0 };
            let to = if x > hi { hi } else { x };
            &&& x == lo ==> low_moved_u32(b, r, x) == Slide::<U32Range>::Keep
            &&& x != lo && to == least && hi == most ==> low_moved_u32(b, r, x) == Slide::<U32Range>::Clear
            &&& x != lo && !(to == least && hi == most) ==> low_moved_u32(b, r, x) == Slide::To(U32Range {
                lo: to,
                hi,
            })
        }),
{
}

/// The upper handle goes where it is moved, down to the lower one, which
/// stays.
pub proof fn high_handle_goes_where_it_is_moved_u32(b: Option<U32Bounds>, r: Option<U32Range>, x: u32)
    ensures
        ({
            let lo = if r is Some { r->0.lo } else if b is Some { b->0.min } else { 0 };
            let hi = if r is Some { r->0.hi } else if b is Some { b->0.max } else { 0 };
            let least = if b is Some { b->0.min } else { 0 };
            let most = if b is Some { b->0.max } else { 0 };
            let to = if x < lo { lo } else { x };
            &&& x == hi ==> high_moved_u32(b, r, x) == Slide::<U32Range>::Keep
            &&& x != hi && lo == least && to == most ==> high_moved_u32(b, r, x) == Slide::<U32Range>::Clear
            &&& x != hi && !(lo == least && to == most) ==> high_moved_u32(b, r, x) == Slide::To(U32Range {
                lo,
                hi: to,
            })
        }),
{
}

/// A range from its ends. An absent end is not bounded.
pub open spec fn range_u32(lo: Option<u32>, hi: Option<u32>) -> Option<U32Range> {
    if lo is None && hi is None {
        None
    } else {
        Some(
            U32Range {
                lo: match lo {
                    Some(x) => x,
                    None => 0,
                },
                hi: match hi {
                    Some(x) => x,
                    None => u32::MAX,
                },
            },
        )
    }
}

/// A range from its ends.
pub fn build_range_u32(lo: Option<u32>, hi: Option<u32>) -> (r: Option<U32Range>)
    ensures
        r == range_u32(lo, hi),
{
    match (lo, hi) {
        (None, None) => None,
        (Some(a), Some(b)) => Some(U32Range { lo: a, hi: b }),
        (Some(a), None) => Some(U32Range { lo: a, hi: u32::MAX }),
        (None, Some(b)) => Some(U32Range { lo: 0, hi: b }),
    }
}

/// A range after its lower end is typed.
pub fn edit_min_u32(r: Option<U32Range>, raw: &str) -> (s: Option<U32Range>)
    ensures
        s == range_u32(
            typed(raw@, u32::MAX),
            match r {
                Some(x) => Some(x.hi),
                None => None,
            },
        ),
{
    let hi: Option<u32> = match r {
        Some(x) => Some(x.hi),
        None => None,
    };
    build_range_u32(read_box(raw, u32::MAX), hi)
}

/// A range after its upper end is typed.
pub fn edit_max_u32(r: Option<U32Range>, raw: &str) -> (s: Option<U32Range>)
    ensures
        s == range_u32(
            match r {
                Some(x) => Some(x.lo),
                None => None,
            },
            typed(raw@, u32::MAX),
        ),
{
    let lo: Option<u32> = match r {
        Some(x) => Some(x.lo),
        None => None,
    };
    build_range_u32(lo, read_box(raw, u32::MAX))
}

/// The least colour rendering that is typed; none for anything but a
/// number of eight bits.
pub fn edit_cri_min(raw: &str) -> (r: Option<u8>)
    ensures
        r == (match typed(raw@, 255) {
            Some(n) => Some(n as u8),
            None => None,
        }),
{
    match read_box(raw, 255) {
        Some(n) => Some(n as u8),
        None => None,
    }
}

// ---------------------------------------------------------------------
// Measurements
// ---------------------------------------------------------------------

/// The handles of a slider; both at zero where nothing is known.
pub open spec fn handles_f32(b: Option<F32Bounds>, r: Option<KeyRange>) -> (i32, i32) {
    match r {
        Some(x) => (x.lo, x.hi),
        None => match b {
            Some(x) => (x.min, x.max),
            None => (0, 0),
        },
    }
}

/// The handles of a slider.
pub fn handle_positions_f32(b: Option<F32Bounds>, r: Option<KeyRange>) -> (h: (i32, i32))
    ensures
        h == handles_f32(b, r),
{
    match r {
        Some(x) => (x.lo, x.hi),
        None => match b {
            Some(x) => (x.min, x.max),
            None => (0, 0),
        },
    }
}

/// Whether the number with the key `a` is greater than that with the key
/// `b`. False where either is no number.
pub open spec fn key_gt(a: i32, b: i32) -> bool {
    !nan_key(a) && !nan_key(b) && a > b
}

/// What two handles demand: nothing where both are at their rails.
pub open spec fn settled_f32(b: Option<F32Bounds>, lo: i32, hi: i32) -> Slide<KeyRange> {
    let rails = handles_f32(b, None);
    if is_near(lo, rails.0) && is_near(hi, rails.1) {
        Slide::Clear
    } else {
        Slide::To(KeyRange { lo, hi })
    }
}

/// What moving the lower handle to `x` does. It goes no farther than the
/// upper one.
pub open spec fn slid_low_f32(b: Option<F32Bounds>, r: Option<KeyRange>, x: i32) -> Slide<
    KeyRange,
> {
    let (lo, hi) = handles_f32(b, r);
    if is_near(x, lo) {
        Slide::Keep
    } else {
        settled_f32(
            b,
            if key_gt(x, hi) {
                hi
            } else {
                x
            },
            hi,
        )
    }
}

/// What moving the upper handle to `x` does. It goes no farther than the
/// lower one.
pub open spec fn slid_high_f32(b: Option<F32Bounds>, r: Option<KeyRange>, x: i32) -> Slide<
    KeyRange,
> {
    let (lo, hi) = handles_f32(b, r);
    if is_near(x, hi) {
        Slide::Keep
    } else {
        settled_f32(
            b,
            lo,
            if key_gt(lo, x) {
                lo
            } else {
                x
            },
        )
    }
}

/// A range that a slider sets has its ends in order, and what is shown
/// after it is set moves nothing, where handles and number are finite.
pub proof fn slid_f32_is_ordered(b: Option<F32Bounds>, r: Option<KeyRange>, x: i32)
    requires
        finite_key(x),
        finite_key(handles_f32(b, r).0),
        finite_key(handles_f32(b, r).1),
    ensures
        slid_low_f32(b, r, x) matches Slide::To(s) ==> s.lo <= s.hi && slid_low_f32(
            b,
            Some(s),
            s.lo,
        ) == Slide::<KeyRange>::Keep,
        slid_high_f32(b, r, x) matches Slide::To(s) ==> s.lo <= s.hi && slid_high_f32(
            b,
            Some(s),
            s.hi,
        ) == Slide::<KeyRange>::Keep,
{
}

/// Whether the number with the key `a` is greater than that with the key
/// `b`.
fn is_greater(a: i32, b: i32) -> (r: bool)
    ensures
        r == key_gt(a, b),
{
    a <= INFINITY_KEY && b >= -INFINITY_KEY && a > b
}

/// What two handles demand.
fn settle_f32(b: Option<F32Bounds>, lo: i32, hi: i32) -> (s: Slide<KeyRange>)
    ensures
        s == settled_f32(b, lo, hi),
{
    let rails: (i32, i32) = handle_positions_f32(b, None);
    if near(lo, rails.0) && near(hi, rails.1) {
        Slide::Clear
    } else {
        Slide::To(KeyRange { lo, hi })
    }
}

/// The lower handle is moved to `x`; nothing happens where that is no
/// number.
pub fn on_min_f32(b: Option<F32Bounds>, r: Option<KeyRange>, x: Option<i32>) -> (s: Slide<KeyRange>)
    ensures
        s == (match x {
            Some(k) => slid_low_f32(b, r, k),
            None => Slide::Keep,
        }),
{
    match x {
        Some(k) => {
            let (lo, hi) = handle_positions_f32(b, r);
            if near(k, lo) {
                Slide::Keep
            } else if is_greater(k, hi) {
                settle_f32(b, hi, hi)
            } else {
                settle_f32(b, k, hi)
            }
        },
        None => Slide::Keep,
    }
}

/// The upper handle is moved to `x`; nothing happens where that is no
/// number.
pub fn on_max_f32(b: Option<F32Bounds>, r: Option<KeyRange>, x: Option<i32>) -> (s: Slide<KeyRange>)
    ensures
        s == (match x {
            Some(k) => slid_high_f32(b, r, k),
            None => Slide::Keep,
        }),
{
    match x {
        Some(k) => {
            let (lo, hi) = handle_positions_f32(b, r);
            if near(k, hi) {
                Slide::Keep
            } else if is_greater(lo, k) {
                settle_f32(b, lo, lo)
            } else {
                settle_f32(b, lo, k)
            }
        },
        None => Slide::Keep,
    }
}

/// Each handle of a slider of measurements goes where it is moved, up to
/// the other one, which stays. Nothing happens where the handle is near
/// already, and a demand is dropped exactly where both handles end near
/// their rails.
pub proof fn handles_go_where_they_are_moved_f32(b: Option<F32Bounds>, r: Option<KeyRange>, x: i32)
    requires
        finite_key(x),
        finite_key(handles_f32(b, r).0),
        finite_key(handles_f32(b, r).1),
    ensures
        ({
            let lo = if r is Some { r->0.lo } else if b is Some { b->0.min } else { 0 };
            let hi = if r is Some { r->0.hi } else if b is Some { b->0.max } else { 0 };
            let least = if b is Some { b->0.min } else { 0 };
            let most = if b is Some { b->0.max } else { 0 };
            let down = if x > hi { hi } else { x };
            let up = if x < lo { lo } else { x };
            &&& is_near(x, lo) ==> slid_low_f32(b, r, x) == Slide::<KeyRange>::Keep
            &&& !is_near(x, lo) && is_near(down, least) && is_near(hi, most) ==> slid_low_f32(
                b,
                r,
                x,
            ) == Slide::<KeyRange>::Clear
            &&& !is_near(x, lo) && !(is_near(down, least) && is_near(hi, most)) ==> slid_low_f32(
                b,
                r,
                x,
            ) == Slide::To(KeyRange { lo: down, hi })
            &&& is_near(x, hi) ==> slid_high_f32(b, r, x) == Slide::<KeyRange>::Keep
            &&& !is_near(x, hi) && is_near(lo, least) && is_near(up, most) ==> slid_high_f32(
                b,
                r,
                x,
            ) == Slide::<KeyRange>::Clear
            &&& !is_near(x, hi) && !(is_near(lo, least) && is_near(up, most)) ==> slid_high_f32(
                b,
                r,
                x,
            ) == Slide::To(KeyRange { lo, hi: up })
        }),
{
}

/// Of two ends that are typed each bounds its own side.
pub proof fn typed_measurements_bound_their_sides(lo: i32, hi: i32)
    ensures
        range_f32(Some(lo), Some(hi)) == Some(KeyRange { lo, hi }),
        range_f32(None, None) is None,
{
}

/// A range from its ends. An absent end is infinite.
pub open spec fn range_f32(lo: Option<i32>, hi: Option<i32>) -> Option<KeyRange> {
    if lo is None && hi is None {
        None
    } else {
        Some(
            KeyRange {
                lo: match lo {
                    Some(k) => k,
                    None => (-INFINITY_KEY) as i32,
                },
                hi: match hi {
                    Some(k) => k,
                    None => INFINITY_KEY,
                },
            },
        )
    }
}

/// A range from its ends.
pub fn build_range_f32(lo: Option<i32>, hi: Option<i32>) -> (r: Option<KeyRange>)
    ensures
        r == range_f32(lo, hi),
{
    match (lo, hi) {
        (None, None) => None,
        (Some(a), Some(b)) => Some(KeyRange { lo: a, hi: b }),
        (Some(a), None) => Some(KeyRange { lo: a, hi: INFINITY_KEY }),
        (None, Some(b)) => Some(KeyRange { lo: -INFINITY_KEY, hi: b }),
    }
}

/// An end, where it is finite.
pub open spec fn finite_end(k: i32) -> Option<i32> {
    if finite_key(k) {
        Some(k)
    } else {
        None
    }
}

/// An end, where it is finite.
pub fn finite_or_none(k: i32) -> (r: Option<i32>)
    ensures
        r == finite_end(k),
{
    if is_finite_key(k) {
        Some(k)
    } else {
        None
    }
}

/// A range after its lower end is typed. The upper end is kept where it
/// is finite.
pub fn edit_min_f32(r: Option<KeyRange>, lo: Option<i32>) -> (s: Option<KeyRange>)
    ensures
        s == range_f32(
            lo,
            match r {
                Some(x) => finite_end(x.hi),
                None => None,
            },
        ),
{
    let hi: Option<i32> = match r {
        Some(x) => finite_or_none(x.hi),
        None => None,
    };
    build_range_f32(lo, hi)
}

/// A range after its upper end is typed. The lower end is kept where it
/// is finite.
pub fn edit_max_f32(r: Option<KeyRange>, hi: Option<i32>) -> (s: Option<KeyRange>)
    ensures
        s == range_f32(
            match r {
                Some(x) => finite_end(x.lo),
                None => None,
            },
            hi,
        ),
{
    let lo: Option<i32> = match r {
        Some(x) => finite_or_none(x.lo),
        None => None,
    };
    build_range_f32(lo, hi)
}

/// Blanking one end of a range of measurements keeps the other, and
/// blanking both demands nothing.
pub proof fn blanking_keeps_the_other_end(lo: i32, hi: i32)
    requires
        finite_key(lo),
        finite_key(hi),
    ensures
        range_f32(None, finite_end(hi)) == Some(KeyRange { lo: (-INFINITY_KEY) as i32, hi }),
        range_f32(finite_end(lo), None) == Some(KeyRange { lo, hi: INFINITY_KEY }),
        range_f32(None, finite_end(INFINITY_KEY)) is None,
        range_f32(finite_end((-INFINITY_KEY) as i32), None) is None,
{
}

// ---------------------------------------------------------------------
// Badges
// ---------------------------------------------------------------------

/// The two positions of a slider in figures; a dash where nothing is
/// known.
pub open spec fn badge_text(known: bool, lo: Seq<char>, hi: Seq<char>) -> Seq<char> {
    if known {
        lo + " \u{2013} "@ + hi
    } else {
        "\u{2014}"@
    }
}

/// The two positions of a slider in figures.
pub fn badge(known: bool, lo: &str, hi: &str) -> (r: String)
    ensures
        r@ == badge_text(known, lo@, hi@),
{
    if !known {
        return owned("\u{2014}");
    }
    let mut r: String = owned(lo);
    push_text(&mut r, " \u{2013} ");
    push_text(&mut r, hi);
    r
}

/// The badge of a slider of whole numbers.
pub fn badge_of_numbers(known: bool, lo: u32, hi: u32) -> (r: String)
    ensures
        r@ == badge_text(known, decimal(lo as nat), decimal(hi as nat)),
{
    badge(known, to_decimal(lo as u64).as_str(), to_decimal(hi as u64).as_str())
}

/// What is said over a slider that is not known.
pub fn tooltip(known: bool) -> (r: Option<&'static str>)
    ensures
        match r {
            Some(t) => !known && t@ == "no data for current filters"@,
            None => known,
        },
{
    if known {
        None
    } else {
        Some("no data for current filters")
    }
}

} // verus!
