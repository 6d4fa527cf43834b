//! The geometry engine: each monitor's rotation- and scale-adjusted
//! logical footprint, and the aggregate bounding canvas over all
//! enabled monitors, with margin and vertical-offset normalization.
//!
//! Logical dimensions are physical pixels divided by the scale; with
//! the scale held in thousandths that is `pixels * 1000 / scale_milli`,
//! rounded down.

use vstd::prelude::*;

use crate::monitor::{
    lemma_first_current_props, lemma_first_preferred_props, spec_effective_mode,
    spec_monitor_wf, Monitor, Resolution,
};
use crate::rotation::{spec_rotation_of_tag, spec_tag_view, Rotation};

verus! {

/// The margin, in logical units, reserved on every side of the
/// aggregate bounding box.
pub const CANVAS_MARGIN: i64 = 50;

/// The degenerate extremes the canvas reports when no monitor is
/// enabled: a well-defined but empty box, left/bottom above
/// right/top.
pub const SENTINEL_LOW: i64 = -10000;

pub const SENTINEL_HIGH: i64 = 10000;

/// The aggregate bounding canvas over the enabled monitors:
/// `x_bounds` and `y_bounds` are `[min, max]` in logical units after
/// the margin; `offset_y` shifts an arrangement with negative vertical
/// extent into non-negative space.
#[derive(Clone, Copy, Debug)]
pub struct MonitorCanvas {
    pub top: i64,
    pub x_bounds: [i64; 2],
    pub y_bounds: [i64; 2],
    pub offset_y: i64,
}

/// Whether this monitor's orientation swaps its pixel dimensions: the
/// two quarter turns do, the identity and the half turn do not.
pub open spec fn spec_dims_swapped(m: Monitor) -> bool {
    spec_rotation_of_tag(spec_tag_view(m.transform)) == Rotation::Deg90
        || spec_rotation_of_tag(spec_tag_view(m.transform)) == Rotation::Deg270
}

/// The pixel width of the effective mode after rotation.
pub open spec fn spec_rot_width(m: Monitor) -> int {
    if spec_dims_swapped(m) {
        spec_effective_mode(m).unwrap().height as int
    } else {
        spec_effective_mode(m).unwrap().width as int
    }
}

/// The pixel height of the effective mode after rotation.
pub open spec fn spec_rot_height(m: Monitor) -> int {
    if spec_dims_swapped(m) {
        spec_effective_mode(m).unwrap().width as int
    } else {
        spec_effective_mode(m).unwrap().height as int
    }
}

/// The monitor's scale in thousandths, one when unset.
pub open spec fn spec_scale_or_default(m: Monitor) -> int {
    if m.scale_milli is Some {
        m.scale_milli.unwrap() as int
    } else {
        1000
    }
}

/// The logical width of the monitor's footprint: rotated pixel width
/// divided by the scale.
pub open spec fn spec_logical_width(m: Monitor) -> int {
    spec_rot_width(m) * 1000 / spec_scale_or_default(m)
}

/// The logical height of the monitor's footprint: rotated pixel height
/// divided by the scale.
pub open spec fn spec_logical_height(m: Monitor) -> int {
    spec_rot_height(m) * 1000 / spec_scale_or_default(m)
}

/// A quarter turn swaps a footprint's pixel dimensions before the
/// scale division; the identity and the half turn leave them as the
/// mode states them.
pub proof fn lemma_footprint_rotation(m: Monitor)
    requires
        spec_effective_mode(m) is Some,
    ensures
        spec_dims_swapped(m) ==> spec_rot_width(m) == spec_effective_mode(m).unwrap().height
            && spec_rot_height(m) == spec_effective_mode(m).unwrap().width,
        !spec_dims_swapped(m) ==> spec_rot_width(m) == spec_effective_mode(m).unwrap().width
            && spec_rot_height(m) == spec_effective_mode(m).unwrap().height,
{
}

/// What the strict aggregation path demands of every enabled monitor:
/// well-formedness, a resolvable mode and a position. An absent scale
/// defaults to one.
pub open spec fn spec_canvas_ready(mons: Seq<Monitor>) -> bool {
    forall|k: int|
        0 <= k < mons.len() ==> ((#[trigger] mons[k]).enabled ==> {
            &&& spec_monitor_wf(mons[k])
            &&& spec_effective_mode(mons[k]) is Some
            &&& mons[k].position is Some
        })
}

/// The bounding box (left, right, bottom, top) over the enabled
/// monitors' footprint corners, or nothing when no monitor is
/// enabled. The first enabled footprint starts the box; each further
/// one widens it, however far out it lies.
pub open spec fn spec_enabled_bounds(mons: Seq<Monitor>) -> Option<(int, int, int, int)>
    decreases mons.len(),
{
    if mons.len() == 0 {
        None
    } else {
        let b = spec_enabled_bounds(mons.drop_last());
        let m = mons.last();
        if !m.enabled {
            b
        } else {
            let l = m.position.unwrap().x as int;
            let r = l + spec_logical_width(m);
            let bo = m.position.unwrap().y as int;
            let t = bo + spec_logical_height(m);
            match b {
                None => Some((l, r, bo, t)),
                Some(p) => Some(
                    (
                        if l < p.0 {
                            l
                        } else {
                            p.0
                        },
                        if r > p.1 {
                            r
                        } else {
                            p.1
                        },
                        if bo < p.2 {
                            bo
                        } else {
                            p.2
                        },
                        if t > p.3 {
                            t
                        } else {
                            p.3
                        },
                    ),
                ),
            }
        }
    }
}

/// The box the canvas reflects: the enabled monitors' bounds, or the
/// fixed degenerate extremes when none is enabled.
pub open spec fn spec_canvas_bounds(mons: Seq<Monitor>) -> (int, int, int, int) {
    match spec_enabled_bounds(mons) {
        Some(b) => b,
        None => (
            SENTINEL_HIGH as int,
            SENTINEL_LOW as int,
            SENTINEL_HIGH as int,
            SENTINEL_LOW as int,
        ),
    }
}

/// A set with no enabled monitor yields no bounds, so the canvas
/// reflects the bare degenerate extremes.
pub proof fn lemma_canvas_bounds_no_enabled(mons: Seq<Monitor>)
    requires
        forall|k: int| 0 <= k < mons.len() ==> !(#[trigger] mons[k]).enabled,
    ensures
        spec_enabled_bounds(mons) is None,
        spec_canvas_bounds(mons) == (
            SENTINEL_HIGH as int,
            SENTINEL_LOW as int,
            SENTINEL_HIGH as int,
            SENTINEL_LOW as int,
        ),
    decreases mons.len(),
{
    if mons.len() > 0 {
        lemma_canvas_bounds_no_enabled(mons.drop_last());
    }
}

/// Inserting a disabled monitor anywhere, whatever its position or
/// modes, moves no bound of the canvas.
pub proof fn lemma_canvas_ignores_disabled(mons: Seq<Monitor>, i: int, m: Monitor)
    requires
        0 <= i <= mons.len(),
        !m.enabled,
    ensures
        spec_enabled_bounds(mons.insert(i, m)) == spec_enabled_bounds(mons),
        spec_canvas_bounds(mons.insert(i, m)) == spec_canvas_bounds(mons),
    decreases mons.len(),
{
    let s2 = mons.insert(i, m);
    if i == mons.len() {
        assert(s2.drop_last() =~= mons);
        assert(s2.last() == m);
    } else {
        assert(s2.last() == mons.last());
        assert(s2.drop_last() =~= mons.drop_last().insert(i, m));
        lemma_canvas_ignores_disabled(mons.drop_last(), i, m);
    }
}

impl Monitor {
    /// The monitor's footprint `(x, y, logical_width, logical_height)`
    /// for best-effort rendering: all zero when no resolution can be
    /// resolved.
    pub fn get_geometry(&self) -> (r: (i32, i32, u64, u64))
        requires
            spec_monitor_wf(*self),
            spec_effective_mode(*self) is Some ==> self.position is Some,
        ensures
            spec_effective_mode(*self) is None ==> r == (0i32, 0i32, 0u64, 0u64),
            spec_effective_mode(*self) is Some ==> {
                &&& r.0 == self.position.unwrap().x
                &&& r.1 == self.position.unwrap().y
                &&& r.2 == spec_logical_width(*self)
                &&& r.3 == spec_logical_height(*self)
            },
    {
        proof {
            lemma_first_current_props(self.modes@);
            lemma_first_preferred_props(self.modes@);
        }
        let cur = self.get_current_resolution();
        let mode: Resolution = if let Some(m) = cur {
            *m
        } else if let Some(m) = self.get_prefered_resolution() {
            *m
        } else {
            return (0, 0, 0, 0);
        };
        proof {
            assert(spec_effective_mode(*self) == Some(mode));
            assert(1 <= mode.width && 1 <= mode.height);
        }
        let rotation = Rotation::from_transform(&self.transform);
        let swapped = rotation == Rotation::Deg90 || rotation == Rotation::Deg270;
        let w: i32 = if swapped {
            mode.height
        } else {
            mode.width
        };
        let h: i32 = if swapped {
            mode.width
        } else {
            mode.height
        };
        let sc: u32 = self.scale_milli.unwrap_or(1000);
        let pos = self.position.unwrap();
        proof {
            vstd::arithmetic::div_mod::lemma_div_nonincreasing((w as int) * 1000, sc as int);
            vstd::arithmetic::div_mod::lemma_div_pos_is_pos((w as int) * 1000, sc as int);
            vstd::arithmetic::div_mod::lemma_div_nonincreasing((h as int) * 1000, sc as int);
            vstd::arithmetic::div_mod::lemma_div_pos_is_pos((h as int) * 1000, sc as int);
        }
        let lw: u64 = (w as u64) * 1000 / (sc as u64);
        let lh: u64 = (h as u64) * 1000 / (sc as u64);
        (pos.x, pos.y, lw, lh)
    }

    /// The aggregate bounding canvas over the enabled monitors of
    /// `monitors`: the bounding box over their footprint corners —
    /// the fixed degenerate box when none is enabled — expanded by
    /// the margin, and the upward offset that makes the arrangement
    /// non-negative. Disabled monitors contribute nothing.
    pub fn get_monitors_canvas(monitors: &Vec<Monitor>) -> (r: MonitorCanvas)
        requires
            spec_canvas_ready(monitors@),
        ensures
            ({
                let b = spec_canvas_bounds(monitors@);
                &&& r.x_bounds@[0] == b.0 - CANVAS_MARGIN
                &&& r.x_bounds@[1] == b.1 + CANVAS_MARGIN
                &&& r.y_bounds@[0] == b.2 - CANVAS_MARGIN
                &&& r.y_bounds@[1] == b.3 + CANVAS_MARGIN
                &&& r.top == b.3 + CANVAS_MARGIN
                &&& r.offset_y == (if b.2 - CANVAS_MARGIN < 0 {
                    -(b.2 - CANVAS_MARGIN)
                } else {
                    0int
                })
            }),
    {
        let mut left: i64 = SENTINEL_HIGH;
        let mut right: i64 = SENTINEL_LOW;
        let mut bottom: i64 = SENTINEL_HIGH;
        let mut top: i64 = SENTINEL_LOW;
        let mut any: bool = false;
        let n = monitors.len();
        let mut i: usize = 0;
        proof {
            assert(monitors@.subrange(0, 0) =~= Seq::<Monitor>::empty());
        }
        while i < n
            invariant
                n == monitors@.len(),
                i <= n,
                spec_canvas_ready(monitors@),
                any ==> spec_enabled_bounds(monitors@.subrange(0, i as int)) == Some(
                    (left as int, right as int, bottom as int, top as int),
                ),
                !any ==> spec_enabled_bounds(monitors@.subrange(0, i as int)) is None && left
                    == SENTINEL_HIGH && right == SENTINEL_LOW && bottom == SENTINEL_HIGH && top
                    == SENTINEL_LOW,
                -0x400_0000_0000 <= left <= 0x400_0000_0000,
                -0x400_0000_0000 <= right <= 0x400_0000_0000,
                -0x400_0000_0000 <= bottom <= 0x400_0000_0000,
                -0x400_0000_0000 <= top <= 0x400_0000_0000,
            decreases n - i,
        {
            let m = &monitors[i];
            proof {
                assert(monitors@.subrange(0, i + 1).drop_last() =~= monitors@.subrange(
                    0,
                    i as int,
                ));
                assert(monitors@.subrange(0, i + 1).last() == monitors@[i as int]);
            }
            if m.enabled {
                proof {
                    assert(monitors@[i as int].enabled);
                    assert(spec_effective_mode(monitors@[i as int]) is Some);
                    lemma_first_current_props(m.modes@);
                    lemma_first_preferred_props(m.modes@);
                }
                let cur = m.get_current_resolution();
                let mode: Resolution = if let Some(res) = cur {
                    *res
                } else if let Some(res) = m.get_prefered_resolution() {
                    *res
                } else {
                    unreached()
                };
                let rotation = Rotation::from_transform(&m.transform);
                let swapped = rotation == Rotation::Deg90 || rotation == Rotation::Deg270;
                let w: i32 = if swapped {
                    mode.height
                } else {
                    mode.width
                };
                let h: i32 = if swapped {
                    mode.width
                } else {
                    mode.height
                };
                let sc: u32 = m.scale_milli.unwrap_or(1000);
                let pos = m.position.unwrap();
                proof {
                    assert(spec_effective_mode(*m) == Some(mode));
                    assert(1 <= mode.width && 1 <= mode.height);
                    vstd::arithmetic::div_mod::lemma_div_nonincreasing(
                        (w as int) * 1000,
                        sc as int,
                    );
                    vstd::arithmetic::div_mod::lemma_div_nonincreasing(
                        (h as int) * 1000,
                        sc as int,
                    );
                    vstd::arithmetic::div_mod::lemma_div_pos_is_pos((w as int) * 1000, sc as int);
                    vstd::arithmetic::div_mod::lemma_div_pos_is_pos((h as int) * 1000, sc as int);
                }
                let lw: u64 = (w as u64) * 1000 / (sc as u64);
                let lh: u64 = (h as u64) * 1000 / (sc as u64);
                let m_left: i64 = pos.x as i64;
                let m_right: i64 = m_left + (lw as i64);
                let m_bottom: i64 = pos.y as i64;
                let m_top: i64 = m_bottom + (lh as i64);
                if any {
                    if m_right > right {
                        right = m_right;
                    }
                    if m_top > top {
                        top = m_top;
                    }
                    if m_left < left {
                        left = m_left;
                    }
                    if m_bottom < bottom {
                        bottom = m_bottom;
                    }
                } else {
                    left = m_left;
                    right = m_right;
                    bottom = m_bottom;
                    top = m_top;
                    any = true;
                }
            }
            i += 1;
        }
        proof {
            assert(monitors@.subrange(0, n as int) =~= monitors@);
        }
        let x0 = left - CANVAS_MARGIN;
        let x1 = right + CANVAS_MARGIN;
        let y0 = bottom - CANVAS_MARGIN;
        let y1 = top + CANVAS_MARGIN;
        let offset_y: i64 = if y0 < 0 {
            -y0
        } else {
            0
        };
        MonitorCanvas { top: y1, x_bounds: [x0, x1], y_bounds: [y0, y1], offset_y }
    }
}

} // verus!
