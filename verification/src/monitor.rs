//! Monitor descriptors: identity, capability list (modes) and current
//! placement, with the resolution-selection and position-mutation
//! operations the geometry engine and the configuration codec share.
//!
//! Refresh rates and scales are carried as fixed-point integers: a
//! refresh rate in millihertz and a scale in thousandths (1000 stands
//! for a scale of one). Positions and pixel dimensions are plain
//! integers.

use vstd::prelude::*;

verus! {

/// A placement in compositor logical-pixel space.
#[derive(Clone, Copy, Debug, PartialEq, Eq, Structural)]
pub struct Position {
    pub x: i32,
    pub y: i32,
}

/// One display mode a monitor supports: pixel dimensions, refresh rate
/// in millihertz, and the vendor-preferred / currently-active flags.
#[derive(Clone, Copy, Debug, PartialEq, Eq, Structural)]
pub struct Resolution {
    pub width: i32,
    pub height: i32,
    pub refresh_mhz: u32,
    pub preferred: bool,
    pub current: bool,
}

/// One attached display: its identity, its supported modes, and its
/// mutable placement state. `saved_position` and `saved_scale_milli`
/// stash a prior placement during interactive edits and are never part
/// of the persisted representation.
#[derive(Clone, Debug, Default)]
pub struct Monitor {
    pub name: String,
    pub description: Option<String>,
    pub enabled: bool,
    pub modes: Vec<Resolution>,
    pub position: Option<Position>,
    pub scale_milli: Option<u32>,
    pub transform: Option<String>,
    pub saved_position: Option<Position>,
    pub saved_scale_milli: Option<u32>,
}

/// A well-formed mode has positive pixel dimensions.
pub open spec fn spec_res_wf(r: Resolution) -> bool {
    1 <= r.width && 1 <= r.height
}

/// A well-formed monitor has well-formed modes and, when a scale is
/// set, a positive one.
pub open spec fn spec_monitor_wf(m: Monitor) -> bool {
    &&& forall|k: int| 0 <= k < m.modes@.len() ==> spec_res_wf(#[trigger] m.modes@[k])
    &&& m.scale_milli is Some ==> 1 <= m.scale_milli.unwrap()
}

/// The index of the first mode flagged `current`, or -1 if none is.
pub open spec fn spec_first_current(modes: Seq<Resolution>) -> int
    decreases modes.len(),
{
    if modes.len() == 0 {
        -1
    } else if modes[0].current {
        0
    } else {
        let r = spec_first_current(modes.drop_first());
        if r < 0 {
            -1
        } else {
            r + 1
        }
    }
}

/// The index of the first mode flagged `preferred`, or -1 if none is.
pub open spec fn spec_first_preferred(modes: Seq<Resolution>) -> int
    decreases modes.len(),
{
    if modes.len() == 0 {
        -1
    } else if modes[0].preferred {
        0
    } else {
        let r = spec_first_preferred(modes.drop_first());
        if r < 0 {
            -1
        } else {
            r + 1
        }
    }
}

pub proof fn lemma_first_current_props(modes: Seq<Resolution>)
    ensures
        spec_first_current(modes) == -1 ==> forall|k: int|
            0 <= k < modes.len() ==> !(#[trigger] modes[k]).current,
        spec_first_current(modes) >= 0 ==> {
            &&& spec_first_current(modes) < modes.len()
            &&& modes[spec_first_current(modes)].current
            &&& forall|k: int| 0 <= k < spec_first_current(modes) ==> !(#[trigger] modes[k]).current
        },
    decreases modes.len(),
{
    if modes.len() > 0 && !modes[0].current {
        let t = modes.drop_first();
        lemma_first_current_props(t);
        if spec_first_current(modes) == -1 {
            assert forall|k: int| 0 <= k < modes.len() implies !(#[trigger] modes[k]).current by {
                if k >= 1 {
                    assert(modes[k] == t[k - 1]);
                }
            }
        } else {
            let r = spec_first_current(modes);
            assert(spec_first_current(t) == r - 1);
            assert(modes[r] == t[r - 1]);
            assert forall|k: int| 0 <= k < r implies !(#[trigger] modes[k]).current by {
                if k >= 1 {
                    assert(modes[k] == t[k - 1]);
                }
            }
        }
    }
}

pub proof fn lemma_first_preferred_props(modes: Seq<Resolution>)
    ensures
        spec_first_preferred(modes) == -1 ==> forall|k: int|
            0 <= k < modes.len() ==> !(#[trigger] modes[k]).preferred,
        spec_first_preferred(modes) >= 0 ==> {
            &&& spec_first_preferred(modes) < modes.len()
            &&& modes[spec_first_preferred(modes)].preferred
            &&& forall|k: int|
                0 <= k < spec_first_preferred(modes) ==> !(#[trigger] modes[k]).preferred
        },
    decreases modes.len(),
{
    if modes.len() > 0 && !modes[0].preferred {
        let t = modes.drop_first();
        lemma_first_preferred_props(t);
        if spec_first_preferred(modes) == -1 {
            assert forall|k: int| 0 <= k < modes.len() implies !(#[trigger] modes[k]).preferred by {
                if k >= 1 {
                    assert(modes[k] == t[k - 1]);
                }
            }
        } else {
            let r = spec_first_preferred(modes);
            assert(spec_first_preferred(t) == r - 1);
            assert(modes[r] == t[r - 1]);
            assert forall|k: int| 0 <= k < r implies !(#[trigger] modes[k]).preferred by {
                if k >= 1 {
                    assert(modes[k] == t[k - 1]);
                }
            }
        }
    }
}

/// The resolution-selection policy used throughout: the current mode
/// if one is flagged, else the first preferred mode, else none.
pub open spec fn spec_effective_mode(m: Monitor) -> Option<Resolution> {
    if spec_first_current(m.modes@) >= 0 {
        Some(m.modes@[spec_first_current(m.modes@)])
    } else if spec_first_preferred(m.modes@) >= 0 {
        Some(m.modes@[spec_first_preferred(m.modes@)])
    } else {
        None
    }
}

/// The mode list after selecting `idx` as current: `current` is set
/// exactly on `idx` and cleared everywhere else; no other field moves.
pub open spec fn spec_set_current(modes: Seq<Resolution>, idx: int) -> Seq<Resolution> {
    Seq::new(modes.len(), |k: int| Resolution { current: k == idx, ..modes[k] })
}

impl Monitor {
    /// The first mode flagged `current`, or none.
    pub fn get_current_resolution(&self) -> (r: Option<&Resolution>)
        ensures
            r is Some <==> spec_first_current(self.modes@) >= 0,
            r is Some ==> *r.unwrap() == self.modes@[spec_first_current(self.modes@)],
    {
        proof {
            lemma_first_current_props(self.modes@);
        }
        let n = self.modes.len();
        let mut i: usize = 0;
        while i < n
            invariant
                n == self.modes@.len(),
                i <= n,
                forall|k: int| 0 <= k < i ==> !(#[trigger] self.modes@[k]).current,
                spec_first_current(self.modes@) == -1 || spec_first_current(self.modes@) >= i,
            decreases n - i,
        {
            if self.modes[i].current {
                proof {
                    lemma_first_current_props(self.modes@);
                }
                return Some(&self.modes[i]);
            }
            proof {
                lemma_first_current_props(self.modes@);
            }
            i += 1;
        }
        None
    }

    /// The first mode flagged `preferred`, or none.
    pub fn get_prefered_resolution(&self) -> (r: Option<&Resolution>)
        ensures
            r is Some <==> spec_first_preferred(self.modes@) >= 0,
            r is Some ==> *r.unwrap() == self.modes@[spec_first_preferred(self.modes@)],
    {
        proof {
            lemma_first_preferred_props(self.modes@);
        }
        let n = self.modes.len();
        let mut i: usize = 0;
        while i < n
            invariant
                n == self.modes@.len(),
                i <= n,
                forall|k: int| 0 <= k < i ==> !(#[trigger] self.modes@[k]).preferred,
                spec_first_preferred(self.modes@) == -1 || spec_first_preferred(self.modes@) >= i,
            decreases n - i,
        {
            if self.modes[i].preferred {
                proof {
                    lemma_first_preferred_props(self.modes@);
                }
                return Some(&self.modes[i]);
            }
            proof {
                lemma_first_preferred_props(self.modes@);
            }
            i += 1;
        }
        None
    }

    /// The resolution-selection policy: the current mode if one is
    /// flagged, else the first preferred mode, else none.
    pub fn effective_mode(&self) -> (r: Option<Resolution>)
        ensures
            r == spec_effective_mode(*self),
    {
        if let Some(c) = self.get_current_resolution() {
            Some(*c)
        } else if let Some(p) = self.get_prefered_resolution() {
            Some(*p)
        } else {
            None
        }
    }

    /// Selects the mode at `index` as current, clearing the flag on all
    /// others. An out-of-bounds index reports failure by returning
    /// `false` and leaves the monitor untouched.
    pub fn set_current_resolution(&mut self, index: usize) -> (ok: bool)
        ensures
            ok == (index < old(self).modes@.len()),
            ok ==> final(self).modes@ == spec_set_current(old(self).modes@, index as int),
            !ok ==> *final(self) == *old(self),
            final(self).name == old(self).name,
            final(self).description == old(self).description,
            final(self).enabled == old(self).enabled,
            final(self).position == old(self).position,
            final(self).scale_milli == old(self).scale_milli,
            final(self).transform == old(self).transform,
            final(self).saved_position == old(self).saved_position,
            final(self).saved_scale_milli == old(self).saved_scale_milli,
    {
        let n = self.modes.len();
        if index < n {
            let mut j: usize = 0;
            while j < n
                invariant
                    n == self.modes@.len(),
                    j <= n,
                    index < n,
                    forall|k: int|
                        0 <= k < j ==> #[trigger] self.modes@[k] == (Resolution {
                            current: false,
                            ..old(self).modes@[k]
                        }),
                    forall|k: int| j <= k < n ==> #[trigger] self.modes@[k] == old(self).modes@[k],
                    self.name == old(self).name,
                    self.description == old(self).description,
                    self.enabled == old(self).enabled,
                    self.position == old(self).position,
                    self.scale_milli == old(self).scale_milli,
                    self.transform == old(self).transform,
                    self.saved_position == old(self).saved_position,
                    self.saved_scale_milli == old(self).saved_scale_milli,
                decreases n - j,
            {
                let mut m = self.modes[j];
                m.current = false;
                self.modes.set(j, m);
                j += 1;
            }
            let mut m = self.modes[index];
            m.current = true;
            self.modes.set(index, m);
            proof {
                assert(self.modes@ =~= spec_set_current(old(self).modes@, index as int));
            }
            true
        } else {
            false
        }
    }

    /// Adds `direction` to the vertical position; a monitor without a
    /// position cannot be nudged and is left untouched.
    pub fn move_vertical(&mut self, direction: i32)
        requires
            old(self).position is Some ==> i32::MIN <= old(self).position.unwrap().y + direction
                <= i32::MAX,
        ensures
            old(self).position is None ==> *final(self) == *old(self),
            old(self).position is Some ==> *final(self) == (Monitor {
                position: Some(
                    Position {
                        x: old(self).position.unwrap().x,
                        y: (old(self).position.unwrap().y + direction) as i32,
                    },
                ),
                ..*old(self)
            }),
    {
        if let Some(pos) = self.position {
            self.position = Some(Position { x: pos.x, y: pos.y + direction });
        }
    }

    /// Adds `direction` to the horizontal position; a monitor without a
    /// position cannot be nudged and is left untouched.
    pub fn move_horizontal(&mut self, direction: i32)
        requires
            old(self).position is Some ==> i32::MIN <= old(self).position.unwrap().x + direction
                <= i32::MAX,
        ensures
            old(self).position is None ==> *final(self) == *old(self),
            old(self).position is Some ==> *final(self) == (Monitor {
                position: Some(
                    Position {
                        x: (old(self).position.unwrap().x + direction) as i32,
                        y: old(self).position.unwrap().y,
                    },
                ),
                ..*old(self)
            }),
    {
        if let Some(pos) = self.position {
            self.position = Some(Position { x: pos.x + direction, y: pos.y });
        }
    }
}

} // verus!
