//! What the viewer remembers from one run to the next.

use crate::double::Double;
use vstd::prelude::*;

verus! {

/// The settings. Positions are fractions of the room that the panel of warnings can move in.
/// All numbers are ones of single precision.
#[derive(Clone, Copy, PartialEq, Eq, Structural, Debug)]
pub struct ViewerSettings {
    /// How much the text of the interface is enlarged.
    pub ui_scale: Double,
    pub highlight_changes: bool,
    pub follow_changes: bool,
    pub dark_theme: bool,
    pub diagnostics_panel_x: Option<Double>,
    pub diagnostics_panel_y: Option<Double>,
    pub diagnostics_collapsed_x: Option<Double>,
    pub diagnostics_collapsed_y: Option<Double>,
    pub diagnostics_collapsed: bool,
}

pub open spec fn opt_wf(d: Option<Double>) -> bool {
    d matches Some(d) ==> crate::screen::plain(d)
}

/// The number of single precision with a mantissa of 24 bits and the given exponent.
pub open spec fn short(mantissa: int, exponent: int) -> Double {
    Double {
        negative: false,
        mantissa: (mantissa * 0x2000_0000) as u64,
        exponent: (exponent - 29) as i64,
    }
}

fn to_short(mantissa: u64, exponent: i64) -> (r: Double)
    requires
        0x80_0000 <= mantissa < 0x100_0000,
        -100 <= exponent <= 0,
    ensures
        r == short(mantissa as int, exponent as int),
        crate::screen::plain(r),
        r.mantissa != 0,
{
    Double { negative: false, mantissa: mantissa * 0x2000_0000, exponent: exponent - 29 }
}

/// The steps of the enlargement: 1, 1.15, 1.25, 1.4 and 1.6 in single precision.
pub open spec fn scale_step(i: int) -> Double {
    if i == 0 {
        short(0x80_0000, -23)
    } else if i == 1 {
        short(0x93_3333, -23)
    } else if i == 2 {
        short(0xa0_0000, -23)
    } else if i == 3 {
        short(0xb3_3333, -23)
    } else {
        short(0xcc_cccd, -23)
    }
}

fn to_scale_step(i: usize) -> (r: Double)
    requires
        i < 5,
    ensures
        r == scale_step(i as int),
        crate::screen::plain(r),
{
    if i == 0 {
        to_short(0x80_0000, -23)
    } else if i == 1 {
        to_short(0x93_3333, -23)
    } else if i == 2 {
        to_short(0xa0_0000, -23)
    } else if i == 3 {
        to_short(0xb3_3333, -23)
    } else {
        to_short(0xcc_cccd, -23)
    }
}

/// A hundredth, in single precision.
pub open spec fn hundredth() -> Double {
    short(0xa3_d70a, -30)
}

/// The nearest number from `low` to `high`.
pub open spec fn clamped(d: Double, low: Double, high: Double) -> Double {
    if d.spec_less(low) {
        low
    } else if high.spec_less(d) {
        high
    } else {
        d
    }
}

/// The nearest number from `low` to `high`.
pub fn clamp(d: Double, low: Double, high: Double) -> (r: Double)
    requires
        d.wf(),
        low.wf(),
        high.wf(),
    ensures
        r == clamped(d, low, high),
        r.wf(),
        r == d || r == low || r == high,
{
    if d.less(low) {
        low
    } else if high.less(d) {
        high
    } else {
        d
    }
}

/// A position, moved into the room that there is.
pub open spec fn as_fraction(d: Option<Double>) -> Option<Double> {
    match d {
        Some(d) => Some(clamped(d, Double::spec_zero(), scale_step(0))),
        None => None,
    }
}

fn to_fraction(d: Option<Double>) -> (r: Option<Double>)
    requires
        opt_wf(d),
    ensures
        r == as_fraction(d),
        opt_wf(r),
{
    match d {
        Some(d) => Some(clamp(d, Double::from_int(0), to_scale_step(0))),
        None => None,
    }
}

/// `scale` is as good as the step.
pub open spec fn is_step(scale: Double, step: Double) -> bool {
    step.spec_difference(scale).spec_single().spec_abs().spec_less(hundredth())
}

/// The first step from the `i`-th on that `scale` is as good as; the third where there is none.
pub open spec fn step_from(scale: Double, i: nat) -> int
    decreases 5 - i,
{
    if i >= 5 {
        2
    } else if is_step(scale, scale_step(i as int)) {
        i as int
    } else {
        step_from(scale, i + 1)
    }
}

impl ViewerSettings {
    pub open spec fn wf(self) -> bool {
        &&& crate::screen::plain(self.ui_scale)
        &&& opt_wf(self.diagnostics_panel_x)
        &&& opt_wf(self.diagnostics_panel_y)
        &&& opt_wf(self.diagnostics_collapsed_x)
        &&& opt_wf(self.diagnostics_collapsed_y)
    }

    pub open spec fn spec_default() -> ViewerSettings {
        ViewerSettings {
            ui_scale: scale_step(2),
            highlight_changes: true,
            follow_changes: false,
            dark_theme: false,
            diagnostics_panel_x: None,
            diagnostics_panel_y: None,
            diagnostics_collapsed_x: None,
            diagnostics_collapsed_y: None,
            diagnostics_collapsed: false,
        }
    }

    pub open spec fn spec_normalized(self) -> ViewerSettings {
        ViewerSettings {
            ui_scale: clamped(self.ui_scale, scale_step(0), scale_step(4)),
            diagnostics_panel_x: as_fraction(self.diagnostics_panel_x),
            diagnostics_panel_y: as_fraction(self.diagnostics_panel_y),
            diagnostics_collapsed_x: as_fraction(self.diagnostics_collapsed_x),
            diagnostics_collapsed_y: as_fraction(self.diagnostics_collapsed_y),
            ..self
        }
    }

    /// The settings with every number in its range.
    pub fn normalized(self) -> (r: ViewerSettings)
        requires
            self.wf(),
        ensures
            r == self.spec_normalized(),
            r.wf(),
    {
        ViewerSettings {
            ui_scale: clamp(self.ui_scale, to_scale_step(0), to_scale_step(4)),
            diagnostics_panel_x: to_fraction(self.diagnostics_panel_x),
            diagnostics_panel_y: to_fraction(self.diagnostics_panel_y),
            diagnostics_collapsed_x: to_fraction(self.diagnostics_collapsed_x),
            diagnostics_collapsed_y: to_fraction(self.diagnostics_collapsed_y),
            ..self
        }
    }

    /// Settings as they were stored. A scale that is no number is the usual one.
    pub fn from_stored(stored: ViewerSettings, scale: Option<Double>) -> (r: ViewerSettings)
        requires
            stored.wf(),
            opt_wf(scale),
        ensures
            r == (ViewerSettings {
                ui_scale: match scale {
                    Some(scale) => scale,
                    None => ViewerSettings::spec_default().ui_scale,
                },
                ..stored
            }).spec_normalized(),
            r.wf(),
    {
        let ui_scale = match scale {
            Some(scale) => scale,
            None => to_scale_step(2),
        };
        ViewerSettings { ui_scale, ..stored }.normalized()
    }

    /// The next step of the enlargement, the first after the last.
    pub open spec fn spec_next_scale(self) -> Double {
        scale_step((step_from(self.ui_scale, 0) + 1) % 5)
    }

    /// Enlarges the text of the interface by a step, or starts over.
    pub fn cycle_ui_scale(&mut self)
        requires
            old(self).wf(),
        ensures
            *final(self) == (ViewerSettings {
                ui_scale: old(self).spec_next_scale(),
                ..*old(self)
            }),
            final(self).wf(),
    {
        let tolerance = to_short(0xa3_d70a, -30);
        let mut found: usize = 2;
        let mut i: usize = 0;
        while i < 5
            invariant_except_break
                found == 2,
                step_from(self.ui_scale, 0) == step_from(self.ui_scale, i as nat),
            invariant
                i <= 5,
                tolerance == hundredth(),
                crate::screen::plain(tolerance),
                crate::screen::plain(self.ui_scale),
                *self == *old(self),
            ensures
                found < 5,
                found == step_from(self.ui_scale, 0),
            decreases 5 - i,
        {
            if to_scale_step(i).minus(self.ui_scale).single().abs().less(tolerance) {
                found = i;
                break;
            }
            i = i + 1;
        }
        self.ui_scale = to_scale_step((found + 1) % 5);
    }
}

impl Default for ViewerSettings {
    fn default() -> (r: ViewerSettings)
        ensures
            r == ViewerSettings::spec_default(),
            r.wf(),
    {
        ViewerSettings {
            ui_scale: to_scale_step(2),
            highlight_changes: true,
            follow_changes: false,
            dark_theme: false,
            diagnostics_panel_x: None,
            diagnostics_panel_y: None,
            diagnostics_collapsed_x: None,
            diagnostics_collapsed_y: None,
            diagnostics_collapsed: false,
        }
    }
}

/// A position is none where none was given, and else lies from 0 to 1.
pub open spec fn is_fraction_of(d: Option<Double>, given: Option<Double>) -> bool {
    &&& d is Some <==> given is Some
    &&& d matches Some(d) ==> !d.spec_less(Double::spec_zero()) && !scale_step(0).spec_less(d)
}

/// Settings that are normalized enlarge the text by a factor from 1 to 1.6, place the panel within
/// its room, and keep every choice that was made.
pub proof fn normalized_settings_are_in_range(s: ViewerSettings)
    requires
        s.wf(),
    ensures
        ({
            let n = s.spec_normalized();
            &&& !n.ui_scale.spec_less(scale_step(0))
            &&& !scale_step(4).spec_less(n.ui_scale)
            &&& is_fraction_of(n.diagnostics_panel_x, s.diagnostics_panel_x)
            &&& is_fraction_of(n.diagnostics_panel_y, s.diagnostics_panel_y)
            &&& is_fraction_of(n.diagnostics_collapsed_x, s.diagnostics_collapsed_x)
            &&& is_fraction_of(n.diagnostics_collapsed_y, s.diagnostics_collapsed_y)
            &&& n.highlight_changes == s.highlight_changes
            &&& n.follow_changes == s.follow_changes
            &&& n.dark_theme == s.dark_theme
            &&& n.diagnostics_collapsed == s.diagnostics_collapsed
        }),
{
    crate::double::lemma_order(scale_step(0), Double::spec_zero());
    crate::double::lemma_order(scale_step(0), scale_step(0));
    crate::double::lemma_order(Double::spec_zero(), Double::spec_zero());
    crate::double::lemma_order(scale_step(4), scale_step(0));
    crate::double::lemma_order(scale_step(4), scale_step(4));
}

/// Settings that are in their ranges are left as they are.
pub proof fn normalizing_twice_changes_nothing(s: ViewerSettings)
    requires
        s.wf(),
    ensures
        s.spec_normalized().spec_normalized() == s.spec_normalized(),
{
    crate::double::lemma_order(scale_step(0), Double::spec_zero());
    crate::double::lemma_order(scale_step(0), scale_step(0));
    crate::double::lemma_order(Double::spec_zero(), Double::spec_zero());
    crate::double::lemma_order(scale_step(4), scale_step(0));
    crate::double::lemma_order(scale_step(4), scale_step(4));
    crate::double::lemma_order(scale_step(0), scale_step(4));
}

} // verus!
