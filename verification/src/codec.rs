//! The configuration codec: serializing a monitor arrangement into
//! line-oriented `monitor = ...` directives, and merging parsed
//! directives back into an existing monitor set by name. Parsing never
//! creates monitors and never fails the caller: malformed lines,
//! unknown names and unparsable fields are skipped field by field.

use vstd::prelude::*;
use vstd::string::StringExecFns;

use crate::digits::{
    parse_int_str, parse_milli_str, push_int, push_milli, spec_int_digits, spec_milli_digits,
    spec_parse_i32, spec_parse_milli,
};
use crate::monitor::{
    lemma_first_preferred_props, spec_effective_mode, spec_first_preferred, spec_set_current,
    Monitor, Position, Resolution,
};
use crate::rotation::{spec_hyprland_of_rotation, spec_rotation_of_tag, spec_tag_view, Rotation};
use crate::text::{
    find_char, lemma_find_char_at, lemma_find_char_props, lemma_split_no_sep,
    lemma_split_with_sep, lemma_trim_start_skip, spec_find_char, spec_is_ws, spec_split_char,
    spec_split_trim, spec_trim, spec_trim_end, spec_trim_start, split_str, split_trim_str, str_eq,
    trim_str,
};

verus! {

/// The spec-level shadow of a `Monitor`: the same fields with strings
/// as character sequences and the mode list as a sequence.
#[verifier::ext_equal]
pub struct MonitorView {
    pub name: Seq<char>,
    pub description: Option<Seq<char>>,
    pub enabled: bool,
    pub modes: Seq<Resolution>,
    pub position: Option<Position>,
    pub scale_milli: Option<u32>,
    pub transform: Option<Seq<char>>,
    pub saved_position: Option<Position>,
    pub saved_scale_milli: Option<u32>,
}

impl View for Monitor {
    type V = MonitorView;

    open spec fn view(&self) -> MonitorView {
        MonitorView {
            name: self.name@,
            description: match self.description {
                Some(d) => Some(d@),
                None => None,
            },
            enabled: self.enabled,
            modes: self.modes@,
            position: self.position,
            scale_milli: self.scale_milli,
            transform: spec_tag_view(self.transform),
            saved_position: self.saved_position,
            saved_scale_milli: self.saved_scale_milli,
        }
    }
}

/// The views of a sequence of monitors.
pub open spec fn spec_views(mons: Seq<Monitor>) -> Seq<MonitorView> {
    mons.map_values(|m: Monitor| m@)
}

/// The `WIDTHxHEIGHT@REFRESH` token of a mode.
pub open spec fn spec_res_token_full(r: Resolution) -> Seq<char> {
    spec_int_digits(r.width as int) + "x"@ + spec_int_digits(r.height as int) + "@"@
        + spec_milli_digits(r.refresh_mhz as nat)
}

/// The `WIDTHxHEIGHT` token of a mode.
pub open spec fn spec_res_token_short(r: Resolution) -> Seq<char> {
    spec_int_digits(r.width as int) + "x"@ + spec_int_digits(r.height as int)
}

/// The monitor's scale in thousandths, one when unset.
pub open spec fn spec_scale_milli_or_default(m: Monitor) -> nat {
    if m.scale_milli is Some {
        m.scale_milli.unwrap() as nat
    } else {
        1000
    }
}

/// The directive line a monitor serializes to: the full placement for
/// an enabled monitor, only the name and the disabled marker for a
/// disabled one.
pub open spec fn spec_config_line(m: Monitor) -> Seq<char> {
    if m.enabled {
        "monitor = "@ + m.name@ + ", "@ + spec_res_token_full(spec_effective_mode(m).unwrap())
            + ", "@ + spec_int_digits(m.position.unwrap().x as int) + "x"@ + spec_int_digits(
            m.position.unwrap().y as int,
        ) + ", "@ + spec_milli_digits(spec_scale_milli_or_default(m)) + ", transform,"@
            + spec_int_digits(
            spec_hyprland_of_rotation(spec_rotation_of_tag(spec_tag_view(m.transform))) as int,
        )
    } else {
        "monitor = "@ + m.name@ + ", disabled"@
    }
}

fn res_token_full(r: &Resolution) -> (s: String)
    ensures
        s@ == spec_res_token_full(*r),
{
    let mut s = String::new();
    push_int(&mut s, r.width);
    proof {
        reveal_strlit("x");
        reveal_strlit("@");
    }
    s.append("x");
    push_int(&mut s, r.height);
    s.append("@");
    push_milli(&mut s, r.refresh_mhz);
    s
}

fn res_token_short(r: &Resolution) -> (s: String)
    ensures
        s@ == spec_res_token_short(*r),
{
    let mut s = String::new();
    push_int(&mut s, r.width);
    proof {
        reveal_strlit("x");
    }
    s.append("x");
    push_int(&mut s, r.height);
    s
}

impl Monitor {
    /// The directive line this monitor serializes to.
    pub fn to_hyprland_config(&self) -> (r: String)
        requires
            self.enabled ==> spec_effective_mode(*self) is Some && self.position is Some,
        ensures
            r@ == spec_config_line(*self),
    {
        let mut out = String::new();
        proof {
            reveal_strlit("monitor = ");
        }
        out.append("monitor = ");
        out.append(self.name.as_str());
        if self.enabled {
            proof {
                crate::monitor::lemma_first_current_props(self.modes@);
                lemma_first_preferred_props(self.modes@);
            }
            let cur = self.get_current_resolution();
            let mode: Resolution = if let Some(m) = cur {
                *m
            } else if let Some(m) = self.get_prefered_resolution() {
                *m
            } else {
                unreached()
            };
            proof {
                assert(spec_effective_mode(*self) == Some(mode));
                reveal_strlit(", ");
                reveal_strlit("x");
                reveal_strlit(", transform,");
            }
            out.append(", ");
            let tok = res_token_full(&mode);
            out.append(tok.as_str());
            out.append(", ");
            let pos = self.position.unwrap();
            push_int(&mut out, pos.x);
            out.append("x");
            push_int(&mut out, pos.y);
            out.append(", ");
            push_milli(&mut out, self.scale_milli.unwrap_or(1000));
            out.append(", transform,");
            let rotation = Rotation::from_transform(&self.transform);
            push_int(&mut out, rotation.to_hyprland());
            proof {
                assert(out@ =~= spec_config_line(*self));
            }
        } else {
            proof {
                reveal_strlit(", disabled");
            }
            out.append(", disabled");
            proof {
                assert(out@ =~= spec_config_line(*self));
            }
        }
        out
    }
}

/// What serializing a whole arrangement demands of it: every enabled
/// monitor has a resolvable mode and a position.
pub open spec fn spec_codec_ready(mons: Seq<Monitor>) -> bool {
    forall|k: int|
        0 <= k < mons.len() ==> ((#[trigger] mons[k]).enabled ==> spec_effective_mode(mons[k])
            is Some && mons[k].position is Some)
}

/// The full configuration text: one directive line per monitor, in
/// order, each ended by a newline.
pub open spec fn spec_config_text(mons: Seq<Monitor>) -> Seq<char>
    decreases mons.len(),
{
    if mons.len() == 0 {
        Seq::<char>::empty()
    } else {
        spec_config_text(mons.drop_last()) + spec_config_line(mons.last()) + "\n"@
    }
}

/// Serializes a whole arrangement: one line per monitor, in the given
/// order.
pub fn hyprland_config_text(monitors: &Vec<Monitor>) -> (r: String)
    requires
        spec_codec_ready(monitors@),
    ensures
        r@ == spec_config_text(monitors@),
{
    let mut out = String::new();
    let n = monitors.len();
    let mut i: usize = 0;
    proof {
        assert(monitors@.subrange(0, 0) =~= Seq::<Monitor>::empty());
    }
    while i < n
        invariant
            n == monitors@.len(),
            i <= n,
            spec_codec_ready(monitors@),
            out@ == spec_config_text(monitors@.subrange(0, i as int)),
        decreases n - i,
    {
        proof {
            assert(monitors@[i as int].enabled ==> spec_effective_mode(monitors@[i as int])
                is Some && monitors@[i as int].position is Some);
        }
        let line = monitors[i].to_hyprland_config();
        out.append(line.as_str());
        proof {
            reveal_strlit("\n");
        }
        out.append("\n");
        proof {
            assert(monitors@.subrange(0, i + 1).drop_last() =~= monitors@.subrange(0, i as int));
            assert(monitors@.subrange(0, i + 1).last() == monitors@[i as int]);
        }
        i += 1;
    }
    proof {
        assert(monitors@.subrange(0, n as int) =~= monitors@);
    }
    out
}

/// The transform tag the integer rotation encoding decodes to;
/// unknown encodings mean no rotation.
pub open spec fn spec_tag_of_code(v: i32) -> Seq<char> {
    if v == 1 {
        "90"@
    } else if v == 2 {
        "180"@
    } else if v == 3 {
        "270"@
    } else {
        "normal"@
    }
}

/// The index of the first mode whose full or short token equals the
/// field, or -1 if none matches.
pub open spec fn spec_mode_match_idx(modes: Seq<Resolution>, f: Seq<char>) -> int
    decreases modes.len(),
{
    if modes.len() == 0 {
        -1
    } else if f == spec_res_token_full(modes[0]) || f == spec_res_token_short(modes[0]) {
        0
    } else {
        let r = spec_mode_match_idx(modes.drop_first(), f);
        if r < 0 {
            -1
        } else {
            r + 1
        }
    }
}

proof fn lemma_mode_match_props(modes: Seq<Resolution>, f: Seq<char>)
    ensures
        spec_mode_match_idx(modes, f) == -1 ==> forall|k: int|
            0 <= k < modes.len() ==> f != spec_res_token_full(#[trigger] modes[k]) && f
                != spec_res_token_short(modes[k]),
        spec_mode_match_idx(modes, f) >= 0 ==> {
            &&& spec_mode_match_idx(modes, f) < modes.len()
            &&& (f == spec_res_token_full(modes[spec_mode_match_idx(modes, f)]) || f
                == spec_res_token_short(modes[spec_mode_match_idx(modes, f)]))
            &&& forall|k: int|
                0 <= k < spec_mode_match_idx(modes, f) ==> f != spec_res_token_full(
                    #[trigger] modes[k],
                ) && f != spec_res_token_short(modes[k])
        },
    decreases modes.len(),
{
    if modes.len() > 0 && f != spec_res_token_full(modes[0]) && f != spec_res_token_short(
        modes[0],
    ) {
        let t = modes.drop_first();
        lemma_mode_match_props(t, f);
        assert(forall|k: int| 0 <= k < t.len() ==> t[k] == modes[k + 1]);
        if spec_mode_match_idx(modes, f) >= 0 {
            let r = spec_mode_match_idx(modes, f);
            assert(spec_mode_match_idx(t, f) == r - 1);
            assert(modes[r] == t[r - 1]);
            assert forall|k: int|
                0 <= k < r implies f != spec_res_token_full(#[trigger] modes[k]) && f
                != spec_res_token_short(modes[k]) by {
                if k >= 1 {
                    assert(modes[k] == t[k - 1]);
                }
            }
        } else {
            assert forall|k: int|
                0 <= k < modes.len() implies f != spec_res_token_full(#[trigger] modes[k]) && f
                != spec_res_token_short(modes[k]) by {
                if k >= 1 {
                    assert(modes[k] == t[k - 1]);
                }
            }
        }
    }
}

proof fn lemma_mode_match_at(modes: Seq<Resolution>, f: Seq<char>, i: int)
    requires
        0 <= i < modes.len(),
        f == spec_res_token_full(modes[i]) || f == spec_res_token_short(modes[i]),
        forall|k: int|
            0 <= k < i ==> f != spec_res_token_full(#[trigger] modes[k]) && f
                != spec_res_token_short(modes[k]),
    ensures
        spec_mode_match_idx(modes, f) == i,
    decreases i,
{
    if i > 0 {
        let t = modes.drop_first();
        assert(forall|k: int| 0 <= k < t.len() ==> t[k] == modes[k + 1]);
        lemma_mode_match_at(t, f, i - 1);
    }
}

/// The index of the first mode whose full or short token equals the
/// field, if any.
fn find_mode_index(modes: &Vec<Resolution>, f: &str) -> (r: Option<usize>)
    ensures
        match r {
            Some(j) => j == spec_mode_match_idx(modes@, f@) && j < modes@.len(),
            None => spec_mode_match_idx(modes@, f@) == -1,
        },
{
    let n = modes.len();
    let mut i: usize = 0;
    while i < n
        invariant
            n == modes@.len(),
            i <= n,
            forall|k: int|
                0 <= k < i ==> f@ != spec_res_token_full(#[trigger] modes@[k]) && f@
                    != spec_res_token_short(modes@[k]),
        decreases n - i,
    {
        let full = res_token_full(&modes[i]);
        let short = res_token_short(&modes[i]);
        if str_eq(f, full.as_str()) || str_eq(f, short.as_str()) {
            proof {
                lemma_mode_match_at(modes@, f@, i as int);
            }
            return Some(i);
        }
        i += 1;
    }
    proof {
        lemma_mode_match_props(modes@, f@);
        if spec_mode_match_idx(modes@, f@) >= 0 {
            assert(f@ == spec_res_token_full(modes@[spec_mode_match_idx(modes@, f@)]) || f@
                == spec_res_token_short(modes@[spec_mode_match_idx(modes@, f@)]));
        }
    }
    None
}

/// The monitor after the resolution field: the first mode whose token
/// matches becomes current; `preferred`/`highres` select the first
/// preferred mode; no match leaves the selection unchanged.
pub open spec fn spec_apply_res(m: MonitorView, f: Seq<char>) -> MonitorView {
    let idx = spec_mode_match_idx(m.modes, f);
    if idx >= 0 {
        MonitorView { modes: spec_set_current(m.modes, idx), ..m }
    } else if f == "preferred"@ || f == "highres"@ {
        let p = spec_first_preferred(m.modes);
        if p >= 0 {
            MonitorView { modes: spec_set_current(m.modes, p), ..m }
        } else {
            m
        }
    } else {
        m
    }
}

/// The monitor after the position field `XxY`: both components must
/// parse as integers or the field is ignored whole.
pub open spec fn spec_apply_pos(m: MonitorView, f: Seq<char>) -> MonitorView {
    let coords = spec_split_char(f, 'x');
    if coords.len() == 2 {
        let x = spec_parse_i32(coords[0]);
        let y = spec_parse_i32(coords[1]);
        if x is Some && y is Some {
            MonitorView { position: Some(Position { x: x.unwrap(), y: y.unwrap() }), ..m }
        } else {
            m
        }
    } else {
        m
    }
}

/// The monitor after the scale field: an unparsable value leaves the
/// scale unchanged.
pub open spec fn spec_apply_scale(m: MonitorView, f: Seq<char>) -> MonitorView {
    match spec_parse_milli(f) {
        Some(v) => MonitorView { scale_milli: Some(v), ..m },
        None => m,
    }
}

/// The monitor after the rotation field: a parsable integer encoding
/// becomes a transform tag; anything else leaves it unchanged.
pub open spec fn spec_apply_rot(m: MonitorView, f: Seq<char>) -> MonitorView {
    match spec_parse_i32(f) {
        Some(v) => MonitorView { transform: Some(spec_tag_of_code(v)), ..m },
        None => m,
    }
}

/// The monitor after one directive's fields: the disabled marker only
/// disables; otherwise the monitor is enabled and the resolution,
/// position, scale and rotation fields apply in turn, each one
/// recoverable on its own.
pub open spec fn spec_update_monitor(m: MonitorView, fields: Seq<Seq<char>>) -> MonitorView {
    if fields[1] == "disabled"@ {
        MonitorView { enabled: false, ..m }
    } else {
        let m1 = MonitorView { enabled: true, ..m };
        let m2 = spec_apply_res(m1, fields[1]);
        let m3 = if fields.len() >= 3 {
            spec_apply_pos(m2, fields[2])
        } else {
            m2
        };
        let m4 = if fields.len() >= 4 {
            spec_apply_scale(m3, fields[3])
        } else {
            m3
        };
        if fields.len() >= 6 && fields[4] == "transform"@ {
            spec_apply_rot(m4, fields[5])
        } else {
            m4
        }
    }
}

/// The trimmed fields of a directive line, or nothing when the line
/// is not a directive: it must begin with the directive keyword and
/// carry at least two comma-separated fields after the `=`.
pub open spec fn spec_line_fields(line: Seq<char>) -> Option<Seq<Seq<char>>> {
    let t = spec_trim(line);
    if !(t.len() >= 7 && t.subrange(0, 7) == "monitor"@) {
        None
    } else {
        let eq = spec_find_char(t, '=');
        let after = if eq < 0 {
            Seq::<char>::empty()
        } else {
            t.subrange(eq + 1, t.len() as int)
        };
        let fields = spec_split_trim(after, ',');
        if fields.len() < 2 {
            None
        } else {
            Some(fields)
        }
    }
}

/// The index of the first monitor with this name, or -1.
pub open spec fn spec_find_monitor(mons: Seq<MonitorView>, name: Seq<char>) -> int
    decreases mons.len(),
{
    if mons.len() == 0 {
        -1
    } else if mons[0].name == name {
        0
    } else {
        let r = spec_find_monitor(mons.drop_first(), name);
        if r < 0 {
            -1
        } else {
            r + 1
        }
    }
}

pub proof fn lemma_find_monitor_props(mons: Seq<MonitorView>, name: Seq<char>)
    ensures
        spec_find_monitor(mons, name) == -1 ==> forall|k: int|
            0 <= k < mons.len() ==> (#[trigger] mons[k]).name != name,
        spec_find_monitor(mons, name) >= 0 ==> {
            &&& spec_find_monitor(mons, name) < mons.len()
            &&& mons[spec_find_monitor(mons, name)].name == name
            &&& forall|k: int|
                0 <= k < spec_find_monitor(mons, name) ==> (#[trigger] mons[k]).name != name
        },
    decreases mons.len(),
{
    if mons.len() > 0 && mons[0].name != name {
        let t = mons.drop_first();
        lemma_find_monitor_props(t, name);
        assert(forall|k: int| 0 <= k < t.len() ==> t[k] == mons[k + 1]);
        if spec_find_monitor(mons, name) >= 0 {
            let r = spec_find_monitor(mons, name);
            assert(spec_find_monitor(t, name) == r - 1);
            assert(mons[r] == t[r - 1]);
            assert forall|k: int| 0 <= k < r implies (#[trigger] mons[k]).name != name by {
                if k >= 1 {
                    assert(mons[k] == t[k - 1]);
                }
            }
        } else {
            assert forall|k: int| 0 <= k < mons.len() implies (#[trigger] mons[k]).name != name by {
                if k >= 1 {
                    assert(mons[k] == t[k - 1]);
                }
            }
        }
    }
}

proof fn lemma_find_monitor_at(mons: Seq<MonitorView>, name: Seq<char>, i: int)
    requires
        0 <= i < mons.len(),
        mons[i].name == name,
        forall|k: int| 0 <= k < i ==> (#[trigger] mons[k]).name != name,
    ensures
        spec_find_monitor(mons, name) == i,
    decreases i,
{
    if i > 0 {
        let t = mons.drop_first();
        assert(forall|k: int| 0 <= k < t.len() ==> t[k] == mons[k + 1]);
        lemma_find_monitor_at(t, name, i - 1);
    }
}

/// The index of the first monitor with this name, if any.
fn find_monitor_index(monitors: &Vec<Monitor>, name: &str) -> (r: Option<usize>)
    ensures
        match r {
            Some(j) => j == spec_find_monitor(spec_views(monitors@), name@) && j
                < monitors@.len(),
            None => spec_find_monitor(spec_views(monitors@), name@) == -1,
        },
{
    let n = monitors.len();
    let mut i: usize = 0;
    while i < n
        invariant
            n == monitors@.len(),
            i <= n,
            forall|k: int|
                0 <= k < i ==> (#[trigger] spec_views(monitors@)[k]).name != name@,
        decreases n - i,
    {
        proof {
            assert(spec_views(monitors@)[i as int] == monitors@[i as int]@);
        }
        if str_eq(monitors[i].name.as_str(), name) {
            proof {
                lemma_find_monitor_at(spec_views(monitors@), name@, i as int);
            }
            return Some(i);
        }
        i += 1;
    }
    proof {
        lemma_find_monitor_props(spec_views(monitors@), name@);
        if spec_find_monitor(spec_views(monitors@), name@) >= 0 {
            assert(spec_views(monitors@)[spec_find_monitor(spec_views(monitors@), name@)].name
                == name@);
        }
    }
    None
}

/// The monitor set after one line: not a directive, or an unknown
/// name, changes nothing; otherwise the first monitor of that name is
/// updated in place.
pub open spec fn spec_apply_line(mons: Seq<MonitorView>, line: Seq<char>) -> Seq<MonitorView> {
    match spec_line_fields(line) {
        None => mons,
        Some(fields) => {
            let idx = spec_find_monitor(mons, fields[0]);
            if idx < 0 {
                mons
            } else {
                mons.update(idx, spec_update_monitor(mons[idx], fields))
            }
        },
    }
}

/// The monitor set after a sequence of lines, applied in order.
pub open spec fn spec_apply_lines(mons: Seq<MonitorView>, lines: Seq<Seq<char>>) -> Seq<
    MonitorView,
>
    decreases lines.len(),
{
    if lines.len() == 0 {
        mons
    } else {
        spec_apply_lines(spec_apply_line(mons, lines[0]), lines.drop_first())
    }
}

proof fn lemma_apply_lines_snoc(mons: Seq<MonitorView>, lines: Seq<Seq<char>>, line: Seq<char>)
    ensures
        spec_apply_lines(mons, lines.push(line)) == spec_apply_line(
            spec_apply_lines(mons, lines),
            line,
        ),
    decreases lines.len(),
{
    if lines.len() == 0 {
        assert(lines.push(line)[0] == line);
        assert(lines.push(line).drop_first() =~= Seq::<Seq<char>>::empty());
        assert(spec_apply_lines(mons, lines.push(line)) == spec_apply_lines(
            spec_apply_line(mons, line),
            lines.push(line).drop_first(),
        ));
        assert(spec_apply_lines(spec_apply_line(mons, line), Seq::<Seq<char>>::empty())
            == spec_apply_line(mons, line));
        assert(spec_apply_lines(mons, lines) == mons);
    } else {
        assert(lines.push(line)[0] == lines[0]);
        assert(lines.push(line).drop_first() =~= lines.drop_first().push(line));
        let x = spec_apply_line(mons, lines[0]);
        lemma_apply_lines_snoc(x, lines.drop_first(), line);
        assert(spec_apply_lines(mons, lines.push(line)) == spec_apply_lines(
            x,
            lines.drop_first().push(line),
        ));
        assert(spec_apply_lines(mons, lines) == spec_apply_lines(x, lines.drop_first()));
    }
}

/// The monitor set after a whole configuration text, line by line.
pub open spec fn spec_apply_config(mons: Seq<MonitorView>, content: Seq<char>) -> Seq<
    MonitorView,
> {
    spec_apply_lines(mons, spec_split_char(content, '\n'))
}

/// Applies one directive's fields to a monitor.
fn update_monitor(m: Monitor, fields: &Vec<String>) -> (r: Monitor)
    requires
        fields@.len() >= 2,
    ensures
        r@ == spec_update_monitor(m@, fields.deep_view()),
{
    proof {
        assert(fields.deep_view()[1] == fields@[1]@);
    }
    if str_eq(fields[1].as_str(), "disabled") {
        let mut m2 = m;
        m2.enabled = false;
        return m2;
    }
    let mut m2 = m;
    m2.enabled = true;
    let ghost m1v = m2@;
    // resolution field
    if let Some(j) = find_mode_index(&m2.modes, fields[1].as_str()) {
        let ok = m2.set_current_resolution(j);
        proof {
            assert(ok);
            assert(m2@ =~= spec_apply_res(m1v, fields.deep_view()[1]));
        }
    } else if str_eq(fields[1].as_str(), "preferred") || str_eq(fields[1].as_str(), "highres") {
        if let Some(p) = first_preferred_index(&m2.modes) {
            let ok = m2.set_current_resolution(p);
            proof {
                assert(ok);
                assert(m2@ =~= spec_apply_res(m1v, fields.deep_view()[1]));
            }
        } else {
            proof {
                assert(m2@ =~= spec_apply_res(m1v, fields.deep_view()[1]));
            }
        }
    } else {
        proof {
            assert(m2@ =~= spec_apply_res(m1v, fields.deep_view()[1]));
        }
    }
    let ghost m2v = m2@;
    proof {
        assert(m2v == spec_apply_res(m1v, fields.deep_view()[1]));
    }
    // position field
    if fields.len() >= 3 {
        proof {
            assert(fields.deep_view()[2] == fields@[2]@);
        }
        let coords = split_str(fields[2].as_str(), 'x');
        if coords.len() == 2 {
            proof {
                assert(coords.deep_view()[0] == coords@[0]@);
                assert(coords.deep_view()[1] == coords@[1]@);
            }
            let x = parse_int_str(coords[0].as_str());
            let y = parse_int_str(coords[1].as_str());
            if let (Some(xv), Some(yv)) = (x, y) {
                m2.position = Some(Position { x: xv, y: yv });
            }
        }
    }
    let ghost m3v = m2@;
    proof {
        if fields.deep_view().len() >= 3 {
            assert(m3v =~= spec_apply_pos(m2v, fields.deep_view()[2]));
        }
    }
    // scale field
    if fields.len() >= 4 {
        proof {
            assert(fields.deep_view()[3] == fields@[3]@);
        }
        if let Some(v) = parse_milli_str(fields[3].as_str()) {
            m2.scale_milli = Some(v);
        }
    }
    let ghost m4v = m2@;
    proof {
        if fields.deep_view().len() >= 4 {
            assert(m4v =~= spec_apply_scale(m3v, fields.deep_view()[3]));
        }
    }
    // rotation fields
    if fields.len() >= 6 {
        proof {
            assert(fields.deep_view()[4] == fields@[4]@);
            assert(fields.deep_view()[5] == fields@[5]@);
        }
        if str_eq(fields[4].as_str(), "transform") {
            if let Some(v) = parse_int_str(fields[5].as_str()) {
                let tag: &str = if v == 1 {
                    "90"
                } else if v == 2 {
                    "180"
                } else if v == 3 {
                    "270"
                } else {
                    "normal"
                };
                m2.transform = Some(tag.to_owned());
            }
        }
    }
    proof {
        if fields.deep_view().len() >= 6 && fields.deep_view()[4] == "transform"@ {
            assert(m2@ =~= spec_apply_rot(m4v, fields.deep_view()[5]));
        }
        assert(m2@ =~= spec_update_monitor(m@, fields.deep_view()));
    }
    m2
}

/// The index of the first preferred mode, if any.
fn first_preferred_index(modes: &Vec<Resolution>) -> (r: Option<usize>)
    ensures
        match r {
            Some(p) => p == spec_first_preferred(modes@) && p < modes@.len(),
            None => spec_first_preferred(modes@) == -1,
        },
{
    proof {
        lemma_first_preferred_props(modes@);
    }
    let n = modes.len();
    let mut i: usize = 0;
    while i < n
        invariant
            n == modes@.len(),
            i <= n,
            forall|k: int| 0 <= k < i ==> !(#[trigger] modes@[k]).preferred,
            spec_first_preferred(modes@) == -1 || spec_first_preferred(modes@) >= i,
        decreases n - i,
    {
        if modes[i].preferred {
            proof {
                lemma_first_preferred_props(modes@);
            }
            return Some(i);
        }
        proof {
            lemma_first_preferred_props(modes@);
        }
        i += 1;
    }
    None
}

/// Applies one line of configuration text to the monitor set.
fn apply_line(monitors: &mut Vec<Monitor>, line: &str)
    ensures
        spec_views(final(monitors)@) == spec_apply_line(spec_views(old(monitors)@), line@),
{
    let t = trim_str(line);
    let t_len = t.unicode_len();
    if t_len < 7 {
        return;
    }
    let head = t.substring_char(0, 7);
    if !str_eq(head, "monitor") {
        return;
    }
    let after: &str = match find_char(t, '=') {
        Some(i) => t.substring_char(i + 1, t_len),
        None => t.substring_char(0, 0),
    };
    proof {
        lemma_find_char_props(t@, '=');
        if spec_find_char(t@, '=') < 0 {
            assert(after@ =~= Seq::<char>::empty());
        }
    }
    let fields = split_trim_str(after, ',');
    if fields.len() < 2 {
        return;
    }
    proof {
        assert(spec_line_fields(line@) == Some(fields.deep_view()));
        assert(fields.deep_view()[0] == fields@[0]@);
    }
    match find_monitor_index(monitors, fields[0].as_str()) {
        None => {},
        Some(j) => {
            let ghost views_old = spec_views(old(monitors)@);
            proof {
                assert(views_old[j as int] == monitors@[j as int]@);
            }
            let m = monitors.remove(j);
            let m2 = update_monitor(m, &fields);
            monitors.insert(j, m2);
            proof {
                assert(m == old(monitors)@[j as int]);
                assert(m2@ == spec_update_monitor(views_old[j as int], fields.deep_view()));
                assert(monitors@ =~= old(monitors)@.update(j as int, m2));
                assert(spec_views(monitors@) =~= views_old.update(j as int, m2@));
                assert(spec_apply_line(views_old, line@) == views_old.update(
                    j as int,
                    spec_update_monitor(views_old[j as int], fields.deep_view()),
                ));
            }
        },
    }
}

/// Merges a whole configuration text into an existing monitor set,
/// line by line; lines that are not directives, reference unknown
/// names, or carry unparsable fields change nothing of their own.
pub fn apply_hyprland_config(content: &str, monitors: &mut Vec<Monitor>)
    ensures
        spec_views(final(monitors)@) == spec_apply_config(spec_views(old(monitors)@), content@),
{
    let lines = split_str(content, '\n');
    let n = lines.len();
    let mut i: usize = 0;
    proof {
        assert(lines.deep_view().subrange(0, 0) =~= Seq::<Seq<char>>::empty());
    }
    while i < n
        invariant
            n == lines@.len(),
            i <= n,
            lines.deep_view() == spec_split_char(content@, '\n'),
            spec_views(monitors@) == spec_apply_lines(
                spec_views(old(monitors)@),
                lines.deep_view().subrange(0, i as int),
            ),
        decreases n - i,
    {
        proof {
            assert(lines.deep_view()[i as int] == lines@[i as int]@);
        }
        apply_line(monitors, lines[i].as_str());
        proof {
            assert(lines.deep_view().subrange(0, i + 1) =~= lines.deep_view().subrange(
                0,
                i as int,
            ).push(lines.deep_view()[i as int]));
            lemma_apply_lines_snoc(
                spec_views(old(monitors)@),
                lines.deep_view().subrange(0, i as int),
                lines.deep_view()[i as int],
            );
        }
        i += 1;
    }
    proof {
        assert(lines.deep_view().subrange(0, n as int) =~= lines.deep_view());
    }
}


/// A directive whose name matches no monitor in the set changes
/// nothing: no monitor is created and none is mutated. A line that is
/// no directive at all changes nothing either.
pub proof fn lemma_unknown_name_is_noop(mons: Seq<MonitorView>, line: Seq<char>)
    requires
        spec_line_fields(line) matches Some(fields) ==> forall|k: int|
            0 <= k < mons.len() ==> (#[trigger] mons[k]).name != fields[0],
    ensures
        spec_apply_line(mons, line) == mons,
{
    match spec_line_fields(line) {
        None => {},
        Some(fields) => {
            lemma_find_monitor_props(mons, fields[0]);
            if spec_find_monitor(mons, fields[0]) >= 0 {
                assert(mons[spec_find_monitor(mons, fields[0])].name == fields[0]);
            }
        },
    }
}

/// Parsing the disabled directive for a name that exists in the set
/// sets `enabled = false` on the first monitor of that name and
/// leaves every other field, and every other monitor, untouched.
/// The name must be free of commas and whitespace, as monitor names
/// in directive lines are.
pub proof fn lemma_disabled_line_semantics(mons: Seq<MonitorView>, name: Seq<char>)
    requires
        forall|k: int| 0 <= k < name.len() ==> !spec_is_ws(#[trigger] name[k]) && name[k] != ',',
        exists|k: int| 0 <= k < mons.len() && (#[trigger] mons[k]).name == name,
    ensures
        ({
            let line = "monitor = "@ + name + ", disabled"@;
            let i = spec_find_monitor(mons, name);
            &&& 0 <= i < mons.len()
            &&& mons[i].name == name
            &&& spec_apply_line(mons, line) == mons.update(
                i,
                MonitorView { enabled: false, ..mons[i] },
            )
        }),
{
    let line = "monitor = "@ + name + ", disabled"@;
    reveal_strlit("monitor = ");
    reveal_strlit(", disabled");
    reveal_strlit("monitor");
    reveal_strlit("disabled");
    let nl = name.len() as int;
    let ll = line.len() as int;
    assert(ll == 20 + nl);
    // the line carries no surrounding whitespace, so trimming is the identity
    assert(line[0] == 'm');
    assert(line[ll - 1] == 'd');
    assert(spec_trim_start(line) == line);
    assert(spec_trim_end(line) == line);
    assert(spec_trim(line) == line);
    // it begins with the directive keyword
    assert(line.subrange(0, 7) =~= "monitor"@);
    // the first '=' is the one of "monitor = ", at index 8
    assert(line[8] == '=');
    assert(forall|k: int| 0 <= k < 8 ==> line[k] != '=');
    lemma_find_char_at(line, '=', 8);
    let after = line.subrange(9, ll);
    // after the '=': a space, the name, then ", disabled"
    let cur = after.subrange(0, nl + 1);
    let rest = after.subrange(nl + 2, after.len() as int);
    assert(cur[0] == ' ');
    assert(forall|k: int| 1 <= k < cur.len() ==> cur[k] == name[k - 1]);
    assert(forall|k: int| 0 <= k < cur.len() ==> cur[k] != ',');
    assert(after =~= cur + seq![','] + rest);
    lemma_split_with_sep(cur, rest, ',');
    assert(forall|k: int| 0 <= k < rest.len() ==> rest[k] != ',');
    lemma_split_no_sep(rest, ',');
    let fields = spec_split_trim(after, ',');
    assert(spec_split_char(after, ',') == seq![cur] + seq![rest]);
    assert(fields.len() == 2);
    // trimming the first field leaves the bare name
    assert(fields[0] == spec_trim(cur));
    lemma_trim_start_skip(cur, 1);
    assert(cur.subrange(1, cur.len() as int) =~= name);
    assert(spec_trim_start(name) == name);
    assert(spec_trim_end(name) == name);
    assert(fields[0] == name);
    // trimming the second leaves the disabled marker
    assert(fields[1] == spec_trim(rest));
    lemma_trim_start_skip(rest, 1);
    assert(rest.subrange(1, rest.len() as int) =~= "disabled"@);
    assert(spec_trim_start("disabled"@) == "disabled"@);
    assert(spec_trim_end("disabled"@) == "disabled"@);
    assert(fields[1] == "disabled"@);
    assert(spec_line_fields(line) == Some(fields));
    // the first monitor of that name is the one the merge updates
    lemma_find_monitor_props(mons, name);
    let i = spec_find_monitor(mons, name);
    if i == -1 {
        let k = choose|k: int| 0 <= k < mons.len() && mons[k].name == name;
        assert(mons[k].name != name);
    }
    assert(0 <= i < mons.len());
    assert(spec_update_monitor(mons[i], fields) == (MonitorView {
        enabled: false,
        ..mons[i]
    }));
}

} // verus!
