//! The icons of the interface.

use crate::change_timeline::ChangeKind;
use crate::double::{ratio, Double};
use crate::geometry::{lesser, Point};
use crate::screen::ScreenRect;
use vstd::prelude::*;

verus! {

/// An icon.
#[derive(Clone, Copy, PartialEq, Eq, Structural, Debug)]
pub enum UiIcon {
    Add,
    Commit,
    Delete,
    Discard,
    Duplicate,
    Edit,
    External,
    Fit,
    Follow,
    Grid,
    Highlight,
    Move,
    Redo,
    Scale,
    Snap,
    Theme,
    TextSelect,
    Transform,
    Undo,
    Wire,
    ZoomIn,
    ZoomOut,
}

/// The icon of a kind of change.
pub open spec fn icon_of_change(kind: ChangeKind) -> UiIcon {
    match kind {
        ChangeKind::Add => UiIcon::Add,
        ChangeKind::Delete => UiIcon::Delete,
        ChangeKind::Duplicate => UiIcon::Duplicate,
        ChangeKind::Edit => UiIcon::Edit,
        ChangeKind::External => UiIcon::External,
        ChangeKind::Move => UiIcon::Move,
        ChangeKind::Redo => UiIcon::Redo,
        ChangeKind::Transform => UiIcon::Transform,
        ChangeKind::Undo => UiIcon::Undo,
        ChangeKind::Wire => UiIcon::Wire,
    }
}

/// The icon of a kind of change.
pub fn change_icon(kind: ChangeKind) -> (r: UiIcon)
    ensures
        r == icon_of_change(kind),
{
    match kind {
        ChangeKind::Add => UiIcon::Add,
        ChangeKind::Delete => UiIcon::Delete,
        ChangeKind::Duplicate => UiIcon::Duplicate,
        ChangeKind::Edit => UiIcon::Edit,
        ChangeKind::External => UiIcon::External,
        ChangeKind::Move => UiIcon::Move,
        ChangeKind::Redo => UiIcon::Redo,
        ChangeKind::Transform => UiIcon::Transform,
        ChangeKind::Undo => UiIcon::Undo,
        ChangeKind::Wire => UiIcon::Wire,
    }
}

/// No two kinds of change have one icon.
pub proof fn kinds_of_change_look_different(a: ChangeKind, b: ChangeKind)
    requires
        icon_of_change(a) == icon_of_change(b),
    ensures
        a == b,
{
}

/// A place of an icon, in hundredths of its radius from its middle: first by `x` and `y`, then
/// by `dx` and `dy`.
#[derive(Clone, Copy, PartialEq, Eq, Structural, Debug)]
pub struct Spot {
    pub x: i64,
    pub y: i64,
    pub dx: i64,
    pub dy: i64,
}

/// A step of an icon's outline.
#[derive(Clone, Copy, PartialEq, Eq, Structural, Debug)]
pub enum Step {
    Move(Spot),
    Line(Spot),
    Curve(Spot, Spot, Spot),
    Close,
}

/// A circle of an icon: a ring or a filled dot. Its radius is in hundredths of the icon's, or
/// in tenths of a pixel.
#[derive(Clone, Copy, PartialEq, Eq, Structural, Debug)]
pub struct Disc {
    pub spot: Spot,
    pub radius: i64,
    pub in_pixels: bool,
    pub filled: bool,
}

pub open spec fn aside(x: int, y: int, dx: int, dy: int) -> Spot {
    Spot { x: x as i64, y: y as i64, dx: dx as i64, dy: dy as i64 }
}

pub open spec fn spot(x: int, y: int) -> Spot {
    aside(x, y, 0, 0)
}

/// The outline of an icon; that of the sun of [`UiIcon::Theme`] is made of its rays.
pub open spec fn steps_of(icon: UiIcon) -> Seq<Step> {
    match icon {
        UiIcon::Add => seq![
            Step::Move(spot(-100, 0)),
            Step::Line(spot(100, 0)),
            Step::Move(spot(0, -100)),
            Step::Line(spot(0, 100)),
        ],
        UiIcon::Commit => seq![
            Step::Move(spot(-100, 0)),
            Step::Line(spot(-25, 72)),
            Step::Line(spot(100, -72)),
        ],
        UiIcon::Delete => seq![
            Step::Move(spot(-72, -55)),
            Step::Line(spot(-50, 100)),
            Step::Line(spot(50, 100)),
            Step::Line(spot(72, -55)),
            Step::Move(spot(-100, -72)),
            Step::Line(spot(100, -72)),
            Step::Move(spot(-36, -100)),
            Step::Line(spot(36, -100)),
        ],
        UiIcon::Discard => seq![
            Step::Move(spot(-75, -75)),
            Step::Line(spot(75, 75)),
            Step::Move(spot(75, -75)),
            Step::Line(spot(-75, 75)),
        ],
        UiIcon::Duplicate => seq![
            Step::Move(spot(-100, -100)),
            Step::Line(spot(45, -100)),
            Step::Line(spot(45, 45)),
            Step::Line(spot(-100, 45)),
            Step::Close,
            Step::Move(spot(-45, -45)),
            Step::Line(spot(100, -45)),
            Step::Line(spot(100, 100)),
            Step::Line(spot(-45, 100)),
        ],
        UiIcon::Edit => seq![
            Step::Move(spot(-85, 85)),
            Step::Line(spot(-55, 15)),
            Step::Line(spot(55, -95)),
            Step::Line(spot(95, -55)),
            Step::Line(spot(-15, 55)),
            Step::Close,
        ],
        UiIcon::External => seq![
            Step::Move(spot(22, -92)),
            Step::Line(spot(85, -80)),
            Step::Line(spot(68, -20)),
            Step::Move(spot(-100, 0)),
            Step::Line(spot(100, 0)),
            Step::Move(spot(0, -100)),
            Step::Line(spot(0, 100)),
        ],
        UiIcon::Fit => seq![
            Step::Move(spot(-100, -45)),
            Step::Line(spot(-100, -100)),
            Step::Line(spot(-45, -100)),
            Step::Move(spot(100, -45)),
            Step::Line(spot(100, -100)),
            Step::Line(spot(45, -100)),
            Step::Move(spot(-100, 45)),
            Step::Line(spot(-100, 100)),
            Step::Line(spot(-45, 100)),
            Step::Move(spot(100, 45)),
            Step::Line(spot(100, 100)),
            Step::Line(spot(45, 100)),
        ],
        UiIcon::Follow => seq![
            Step::Move(spot(-100, 0)),
            Step::Line(spot(-45, 0)),
            Step::Move(spot(45, 0)),
            Step::Line(spot(100, 0)),
            Step::Move(spot(0, -100)),
            Step::Line(spot(0, -45)),
            Step::Move(spot(0, 45)),
            Step::Line(spot(0, 100)),
        ],
        UiIcon::Grid => seq![
            Step::Move(spot(-100, -62)),
            Step::Line(spot(100, -62)),
            Step::Move(spot(-62, -100)),
            Step::Line(spot(-62, 100)),
            Step::Move(spot(-100, 0)),
            Step::Line(spot(100, 0)),
            Step::Move(spot(0, -100)),
            Step::Line(spot(0, 100)),
            Step::Move(spot(-100, 62)),
            Step::Line(spot(100, 62)),
            Step::Move(spot(62, -100)),
            Step::Line(spot(62, 100)),
        ],
        UiIcon::Highlight => seq![
            Step::Move(spot(-100, 0)),
            Step::Curve(spot(-50, -80), spot(50, -80), spot(100, 0)),
            Step::Curve(spot(50, 80), spot(-50, 80), spot(-100, 0)),
        ],
        UiIcon::Move => seq![
            Step::Move(spot(-100, 0)),
            Step::Line(spot(100, 0)),
            Step::Move(spot(0, -100)),
            Step::Line(spot(0, 100)),
            Step::Move(spot(-100, 0)),
            Step::Line(aside(-100, 0, 35, -35)),
            Step::Move(spot(-100, 0)),
            Step::Line(aside(-100, 0, 35, 35)),
            Step::Move(spot(100, 0)),
            Step::Line(aside(100, 0, -35, -35)),
            Step::Move(spot(100, 0)),
            Step::Line(aside(100, 0, -35, 35)),
            Step::Move(spot(0, -100)),
            Step::Line(aside(0, -100, -35, 35)),
            Step::Move(spot(0, -100)),
            Step::Line(aside(0, -100, 35, 35)),
            Step::Move(spot(0, 100)),
            Step::Line(aside(0, 100, -35, -35)),
            Step::Move(spot(0, 100)),
            Step::Line(aside(0, 100, 35, -35)),
        ],
        UiIcon::Redo => seq![
            Step::Move(spot(-75, -70)),
            Step::Line(spot(10, -70)),
            Step::Curve(spot(100, -70), spot(100, 70), spot(10, 70)),
            Step::Move(spot(-75, -70)),
            Step::Line(spot(-25, -100)),
            Step::Move(spot(-75, -70)),
            Step::Line(spot(-25, -35)),
        ],
        UiIcon::Scale => seq![
            Step::Move(spot(-100, 100)),
            Step::Line(spot(0, -100)),
            Step::Line(spot(100, 100)),
            Step::Move(spot(-55, 20)),
            Step::Line(spot(55, 20)),
        ],
        UiIcon::Snap => seq![
            Step::Move(spot(-100, -100)),
            Step::Line(spot(-100, 35)),
            Step::Curve(spot(-100, 100), spot(100, 100), spot(100, 35)),
            Step::Line(spot(100, -100)),
            Step::Move(spot(-100, -35)),
            Step::Line(spot(-40, -35)),
            Step::Move(spot(40, -35)),
            Step::Line(spot(100, -35)),
        ],
        UiIcon::Theme => Seq::empty(),
        UiIcon::TextSelect => seq![
            Step::Move(spot(-65, -100)),
            Step::Line(spot(65, -100)),
            Step::Move(spot(0, -100)),
            Step::Line(spot(0, 100)),
            Step::Move(spot(-65, 100)),
            Step::Line(spot(65, 100)),
        ],
        UiIcon::Transform => seq![
            Step::Move(spot(22, -92)),
            Step::Line(spot(85, -80)),
            Step::Line(spot(68, -20)),
        ],
        UiIcon::Undo => seq![
            Step::Move(spot(75, -70)),
            Step::Line(spot(-10, -70)),
            Step::Curve(spot(-100, -70), spot(-100, 70), spot(-10, 70)),
            Step::Move(spot(75, -70)),
            Step::Line(spot(25, -100)),
            Step::Move(spot(75, -70)),
            Step::Line(spot(25, -35)),
        ],
        UiIcon::Wire => seq![
            Step::Move(spot(-100, 65)),
            Step::Line(spot(-25, 65)),
            Step::Line(spot(25, -65)),
            Step::Line(spot(100, -65)),
        ],
        UiIcon::ZoomIn => seq![
            Step::Move(spot(28, 28)),
            Step::Line(spot(100, 100)),
            Step::Move(spot(-52, -20)),
            Step::Line(spot(12, -20)),
            Step::Move(spot(-20, -52)),
            Step::Line(spot(-20, 12)),
        ],
        UiIcon::ZoomOut => seq![
            Step::Move(spot(28, 28)),
            Step::Line(spot(100, 100)),
            Step::Move(spot(-52, -20)),
            Step::Line(spot(12, -20)),
        ],
    }
}

/// The circles of an icon.
pub open spec fn discs_of(icon: UiIcon) -> Seq<Disc> {
    match icon {
        UiIcon::External => seq![Disc { spot: spot(0, 0), radius: 75, in_pixels: false, filled: false }],
        UiIcon::Follow => seq![Disc { spot: spot(0, 0), radius: 62, in_pixels: false, filled: false }],
        UiIcon::Theme => seq![Disc { spot: spot(0, 0), radius: 50, in_pixels: false, filled: false }],
        UiIcon::Transform => seq![Disc { spot: spot(0, 0), radius: 75, in_pixels: false, filled: false }],
        UiIcon::ZoomIn => seq![Disc { spot: spot(-20, -20), radius: 65, in_pixels: false, filled: false }],
        UiIcon::ZoomOut => seq![Disc { spot: spot(-20, -20), radius: 65, in_pixels: false, filled: false }],
        UiIcon::Highlight => seq![
            Disc { spot: spot(0, 0), radius: 26, in_pixels: false, filled: true },
        ],
        UiIcon::Wire => seq![
            Disc { spot: spot(-100, 65), radius: 22, in_pixels: true, filled: true },
            Disc { spot: spot(100, -65), radius: 22, in_pixels: true, filled: true },
        ],
        _ => Seq::empty(),
    }
}

fn list_steps(icon: UiIcon) -> (r: Vec<Step>)
    ensures
        r@ == steps_of(icon),
{
    match icon {
        UiIcon::Add => vec![
            Step::Move(Spot { x: -100, y: 0, dx: 0, dy: 0 }),
            Step::Line(Spot { x: 100, y: 0, dx: 0, dy: 0 }),
            Step::Move(Spot { x: 0, y: -100, dx: 0, dy: 0 }),
            Step::Line(Spot { x: 0, y: 100, dx: 0, dy: 0 }),
        ],
        UiIcon::Commit => vec![
            Step::Move(Spot { x: -100, y: 0, dx: 0, dy: 0 }),
            Step::Line(Spot { x: -25, y: 72, dx: 0, dy: 0 }),
            Step::Line(Spot { x: 100, y: -72, dx: 0, dy: 0 }),
        ],
        UiIcon::Delete => vec![
            Step::Move(Spot { x: -72, y: -55, dx: 0, dy: 0 }),
            Step::Line(Spot { x: -50, y: 100, dx: 0, dy: 0 }),
            Step::Line(Spot { x: 50, y: 100, dx: 0, dy: 0 }),
            Step::Line(Spot { x: 72, y: -55, dx: 0, dy: 0 }),
            Step::Move(Spot { x: -100, y: -72, dx: 0, dy: 0 }),
            Step::Line(Spot { x: 100, y: -72, dx: 0, dy: 0 }),
            Step::Move(Spot { x: -36, y: -100, dx: 0, dy: 0 }),
            Step::Line(Spot { x: 36, y: -100, dx: 0, dy: 0 }),
        ],
        UiIcon::Discard => vec![
            Step::Move(Spot { x: -75, y: -75, dx: 0, dy: 0 }),
            Step::Line(Spot { x: 75, y: 75, dx: 0, dy: 0 }),
            Step::Move(Spot { x: 75, y: -75, dx: 0, dy: 0 }),
            Step::Line(Spot { x: -75, y: 75, dx: 0, dy: 0 }),
        ],
        UiIcon::Duplicate => vec![
            Step::Move(Spot { x: -100, y: -100, dx: 0, dy: 0 }),
            Step::Line(Spot { x: 45, y: -100, dx: 0, dy: 0 }),
            Step::Line(Spot { x: 45, y: 45, dx: 0, dy: 0 }),
            Step::Line(Spot { x: -100, y: 45, dx: 0, dy: 0 }),
            Step::Close,
            Step::Move(Spot { x: -45, y: -45, dx: 0, dy: 0 }),
            Step::Line(Spot { x: 100, y: -45, dx: 0, dy: 0 }),
            Step::Line(Spot { x: 100, y: 100, dx: 0, dy: 0 }),
            Step::Line(Spot { x: -45, y: 100, dx: 0, dy: 0 }),
        ],
        UiIcon::Edit => vec![
            Step::Move(Spot { x: -85, y: 85, dx: 0, dy: 0 }),
            Step::Line(Spot { x: -55, y: 15, dx: 0, dy: 0 }),
            Step::Line(Spot { x: 55, y: -95, dx: 0, dy: 0 }),
            Step::Line(Spot { x: 95, y: -55, dx: 0, dy: 0 }),
            Step::Line(Spot { x: -15, y: 55, dx: 0, dy: 0 }),
            Step::Close,
        ],
        UiIcon::External => vec![
            Step::Move(Spot { x: 22, y: -92, dx: 0, dy: 0 }),
            Step::Line(Spot { x: 85, y: -80, dx: 0, dy: 0 }),
            Step::Line(Spot { x: 68, y: -20, dx: 0, dy: 0 }),
            Step::Move(Spot { x: -100, y: 0, dx: 0, dy: 0 }),
            Step::Line(Spot { x: 100, y: 0, dx: 0, dy: 0 }),
            Step::Move(Spot { x: 0, y: -100, dx: 0, dy: 0 }),
            Step::Line(Spot { x: 0, y: 100, dx: 0, dy: 0 }),
        ],
        UiIcon::Fit => vec![
            Step::Move(Spot { x: -100, y: -45, dx: 0, dy: 0 }),
            Step::Line(Spot { x: -100, y: -100, dx: 0, dy: 0 }),
            Step::Line(Spot { x: -45, y: -100, dx: 0, dy: 0 }),
            Step::Move(Spot { x: 100, y: -45, dx: 0, dy: 0 }),
            Step::Line(Spot { x: 100, y: -100, dx: 0, dy: 0 }),
            Step::Line(Spot { x: 45, y: -100, dx: 0, dy: 0 }),
            Step::Move(Spot { x: -100, y: 45, dx: 0, dy: 0 }),
            Step::Line(Spot { x: -100, y: 100, dx: 0, dy: 0 }),
            Step::Line(Spot { x: -45, y: 100, dx: 0, dy: 0 }),
            Step::Move(Spot { x: 100, y: 45, dx: 0, dy: 0 }),
            Step::Line(Spot { x: 100, y: 100, dx: 0, dy: 0 }),
            Step::Line(Spot { x: 45, y: 100, dx: 0, dy: 0 }),
        ],
        UiIcon::Follow => vec![
            Step::Move(Spot { x: -100, y: 0, dx: 0, dy: 0 }),
            Step::Line(Spot { x: -45, y: 0, dx: 0, dy: 0 }),
            Step::Move(Spot { x: 45, y: 0, dx: 0, dy: 0 }),
            Step::Line(Spot { x: 100, y: 0, dx: 0, dy: 0 }),
            Step::Move(Spot { x: 0, y: -100, dx: 0, dy: 0 }),
            Step::Line(Spot { x: 0, y: -45, dx: 0, dy: 0 }),
            Step::Move(Spot { x: 0, y: 45, dx: 0, dy: 0 }),
            Step::Line(Spot { x: 0, y: 100, dx: 0, dy: 0 }),
        ],
        UiIcon::Grid => vec![
            Step::Move(Spot { x: -100, y: -62, dx: 0, dy: 0 }),
            Step::Line(Spot { x: 100, y: -62, dx: 0, dy: 0 }),
            Step::Move(Spot { x: -62, y: -100, dx: 0, dy: 0 }),
            Step::Line(Spot { x: -62, y: 100, dx: 0, dy: 0 }),
            Step::Move(Spot { x: -100, y: 0, dx: 0, dy: 0 }),
            Step::Line(Spot { x: 100, y: 0, dx: 0, dy: 0 }),
            Step::Move(Spot { x: 0, y: -100, dx: 0, dy: 0 }),
            Step::Line(Spot { x: 0, y: 100, dx: 0, dy: 0 }),
            Step::Move(Spot { x: -100, y: 62, dx: 0, dy: 0 }),
            Step::Line(Spot { x: 100, y: 62, dx: 0, dy: 0 }),
            Step::Move(Spot { x: 62, y: -100, dx: 0, dy: 0 }),
            Step::Line(Spot { x: 62, y: 100, dx: 0, dy: 0 }),
        ],
        UiIcon::Highlight => vec![
            Step::Move(Spot { x: -100, y: 0, dx: 0, dy: 0 }),
            Step::Curve(Spot { x: -50, y: -80, dx: 0, dy: 0 }, Spot { x: 50, y: -80, dx: 0, dy: 0 }, Spot { x: 100, y: 0, dx: 0, dy: 0 }),
            Step::Curve(Spot { x: 50, y: 80, dx: 0, dy: 0 }, Spot { x: -50, y: 80, dx: 0, dy: 0 }, Spot { x: -100, y: 0, dx: 0, dy: 0 }),
        ],
        UiIcon::Move => vec![
            Step::Move(Spot { x: -100, y: 0, dx: 0, dy: 0 }),
            Step::Line(Spot { x: 100, y: 0, dx: 0, dy: 0 }),
            Step::Move(Spot { x: 0, y: -100, dx: 0, dy: 0 }),
            Step::Line(Spot { x: 0, y: 100, dx: 0, dy: 0 }),
            Step::Move(Spot { x: -100, y: 0, dx: 0, dy: 0 }),
            Step::Line(Spot { x: -100, y: 0, dx: 35, dy: -35 }),
            Step::Move(Spot { x: -100, y: 0, dx: 0, dy: 0 }),
            Step::Line(Spot { x: -100, y: 0, dx: 35, dy: 35 }),
            Step::Move(Spot { x: 100, y: 0, dx: 0, dy: 0 }),
            Step::Line(Spot { x: 100, y: 0, dx: -35, dy: -35 }),
            Step::Move(Spot { x: 100, y: 0, dx: 0, dy: 0 }),
            Step::Line(Spot { x: 100, y: 0, dx: -35, dy: 35 }),
            Step::Move(Spot { x: 0, y: -100, dx: 0, dy: 0 }),
            Step::Line(Spot { x: 0, y: -100, dx: -35, dy: 35 }),
            Step::Move(Spot { x: 0, y: -100, dx: 0, dy: 0 }),
            Step::Line(Spot { x: 0, y: -100, dx: 35, dy: 35 }),
            Step::Move(Spot { x: 0, y: 100, dx: 0, dy: 0 }),
            Step::Line(Spot { x: 0, y: 100, dx: -35, dy: -35 }),
            Step::Move(Spot { x: 0, y: 100, dx: 0, dy: 0 }),
            Step::Line(Spot { x: 0, y: 100, dx: 35, dy: -35 }),
        ],
        UiIcon::Redo => vec![
            Step::Move(Spot { x: -75, y: -70, dx: 0, dy: 0 }),
            Step::Line(Spot { x: 10, y: -70, dx: 0, dy: 0 }),
            Step::Curve(Spot { x: 100, y: -70, dx: 0, dy: 0 }, Spot { x: 100, y: 70, dx: 0, dy: 0 }, Spot { x: 10, y: 70, dx: 0, dy: 0 }),
            Step::Move(Spot { x: -75, y: -70, dx: 0, dy: 0 }),
            Step::Line(Spot { x: -25, y: -100, dx: 0, dy: 0 }),
            Step::Move(Spot { x: -75, y: -70, dx: 0, dy: 0 }),
            Step::Line(Spot { x: -25, y: -35, dx: 0, dy: 0 }),
        ],
        UiIcon::Scale => vec![
            Step::Move(Spot { x: -100, y: 100, dx: 0, dy: 0 }),
            Step::Line(Spot { x: 0, y: -100, dx: 0, dy: 0 }),
            Step::Line(Spot { x: 100, y: 100, dx: 0, dy: 0 }),
            Step::Move(Spot { x: -55, y: 20, dx: 0, dy: 0 }),
            Step::Line(Spot { x: 55, y: 20, dx: 0, dy: 0 }),
        ],
        UiIcon::Snap => vec![
            Step::Move(Spot { x: -100, y: -100, dx: 0, dy: 0 }),
            Step::Line(Spot { x: -100, y: 35, dx: 0, dy: 0 }),
            Step::Curve(Spot { x: -100, y: 100, dx: 0, dy: 0 }, Spot { x: 100, y: 100, dx: 0, dy: 0 }, Spot { x: 100, y: 35, dx: 0, dy: 0 }),
            Step::Line(Spot { x: 100, y: -100, dx: 0, dy: 0 }),
            Step::Move(Spot { x: -100, y: -35, dx: 0, dy: 0 }),
            Step::Line(Spot { x: -40, y: -35, dx: 0, dy: 0 }),
            Step::Move(Spot { x: 40, y: -35, dx: 0, dy: 0 }),
            Step::Line(Spot { x: 100, y: -35, dx: 0, dy: 0 }),
        ],
        UiIcon::Theme => Vec::new(),
        UiIcon::TextSelect => vec![
            Step::Move(Spot { x: -65, y: -100, dx: 0, dy: 0 }),
            Step::Line(Spot { x: 65, y: -100, dx: 0, dy: 0 }),
            Step::Move(Spot { x: 0, y: -100, dx: 0, dy: 0 }),
            Step::Line(Spot { x: 0, y: 100, dx: 0, dy: 0 }),
            Step::Move(Spot { x: -65, y: 100, dx: 0, dy: 0 }),
            Step::Line(Spot { x: 65, y: 100, dx: 0, dy: 0 }),
        ],
        UiIcon::Transform => vec![
            Step::Move(Spot { x: 22, y: -92, dx: 0, dy: 0 }),
            Step::Line(Spot { x: 85, y: -80, dx: 0, dy: 0 }),
            Step::Line(Spot { x: 68, y: -20, dx: 0, dy: 0 }),
        ],
        UiIcon::Undo => vec![
            Step::Move(Spot { x: 75, y: -70, dx: 0, dy: 0 }),
            Step::Line(Spot { x: -10, y: -70, dx: 0, dy: 0 }),
            Step::Curve(Spot { x: -100, y: -70, dx: 0, dy: 0 }, Spot { x: -100, y: 70, dx: 0, dy: 0 }, Spot { x: -10, y: 70, dx: 0, dy: 0 }),
            Step::Move(Spot { x: 75, y: -70, dx: 0, dy: 0 }),
            Step::Line(Spot { x: 25, y: -100, dx: 0, dy: 0 }),
            Step::Move(Spot { x: 75, y: -70, dx: 0, dy: 0 }),
            Step::Line(Spot { x: 25, y: -35, dx: 0, dy: 0 }),
        ],
        UiIcon::Wire => vec![
            Step::Move(Spot { x: -100, y: 65, dx: 0, dy: 0 }),
            Step::Line(Spot { x: -25, y: 65, dx: 0, dy: 0 }),
            Step::Line(Spot { x: 25, y: -65, dx: 0, dy: 0 }),
            Step::Line(Spot { x: 100, y: -65, dx: 0, dy: 0 }),
        ],
        UiIcon::ZoomIn => vec![
            Step::Move(Spot { x: 28, y: 28, dx: 0, dy: 0 }),
            Step::Line(Spot { x: 100, y: 100, dx: 0, dy: 0 }),
            Step::Move(Spot { x: -52, y: -20, dx: 0, dy: 0 }),
            Step::Line(Spot { x: 12, y: -20, dx: 0, dy: 0 }),
            Step::Move(Spot { x: -20, y: -52, dx: 0, dy: 0 }),
            Step::Line(Spot { x: -20, y: 12, dx: 0, dy: 0 }),
        ],
        UiIcon::ZoomOut => vec![
            Step::Move(Spot { x: 28, y: 28, dx: 0, dy: 0 }),
            Step::Line(Spot { x: 100, y: 100, dx: 0, dy: 0 }),
            Step::Move(Spot { x: -52, y: -20, dx: 0, dy: 0 }),
            Step::Line(Spot { x: 12, y: -20, dx: 0, dy: 0 }),
        ],
    }
}

fn list_discs(icon: UiIcon) -> (r: Vec<Disc>)
    ensures
        r@ == discs_of(icon),
{
    match icon {
        UiIcon::External => vec![Disc { spot: Spot { x: 0, y: 0, dx: 0, dy: 0 }, radius: 75, in_pixels: false, filled: false }],
        UiIcon::Follow => vec![Disc { spot: Spot { x: 0, y: 0, dx: 0, dy: 0 }, radius: 62, in_pixels: false, filled: false }],
        UiIcon::Theme => vec![Disc { spot: Spot { x: 0, y: 0, dx: 0, dy: 0 }, radius: 50, in_pixels: false, filled: false }],
        UiIcon::Transform => vec![Disc { spot: Spot { x: 0, y: 0, dx: 0, dy: 0 }, radius: 75, in_pixels: false, filled: false }],
        UiIcon::ZoomIn => vec![Disc { spot: Spot { x: -20, y: -20, dx: 0, dy: 0 }, radius: 65, in_pixels: false, filled: false }],
        UiIcon::ZoomOut => vec![Disc { spot: Spot { x: -20, y: -20, dx: 0, dy: 0 }, radius: 65, in_pixels: false, filled: false }],
        UiIcon::Highlight => vec![
            Disc {
                spot: Spot { x: 0, y: 0, dx: 0, dy: 0 },
                radius: 26,
                in_pixels: false,
                filled: true,
            },
        ],
        UiIcon::Wire => vec![
            Disc {
                spot: Spot { x: -100, y: 65, dx: 0, dy: 0 },
                radius: 22,
                in_pixels: true,
                filled: true,
            },
            Disc {
                spot: Spot { x: 100, y: -65, dx: 0, dy: 0 },
                radius: 22,
                in_pixels: true,
                filled: true,
            },
        ],
        _ => Vec::new(),
    }
}

/// The spot lies in the box of an icon.
pub open spec fn fits(s: Spot) -> bool {
    -100 <= s.x + s.dx <= 100 && -100 <= s.y + s.dy <= 100 && -100 <= s.x <= 100 && -100 <= s.y
        <= 100 && -100 <= s.dx <= 100 && -100 <= s.dy <= 100
}

pub open spec fn step_fits(s: Step) -> bool {
    match s {
        Step::Move(p) => fits(p),
        Step::Line(p) => fits(p),
        Step::Curve(p, q, r) => fits(p) && fits(q) && fits(r),
        Step::Close => true,
    }
}

/// No outline leaves the box of its icon.
pub proof fn outlines_stay_in_their_box(icon: UiIcon, i: int)
    requires
        0 <= i < steps_of(icon).len(),
    ensures
        step_fits(steps_of(icon)[i]),
{
}

/// A step of an outline in the window.
#[derive(Clone, Copy, PartialEq, Eq, Structural, Debug)]
pub enum PathStep {
    Move(Point),
    Line(Point),
    Curve(Point, Point, Point),
    Close,
}

/// A circle in the window.
#[derive(Clone, Copy, PartialEq, Eq, Structural, Debug)]
pub struct PaintedDisc {
    pub center: Point,
    pub radius: Double,
    pub filled: bool,
}

/// An icon in the window: its circles are painted first, then the outline is stroked.
pub struct IconArt {
    pub discs: Vec<PaintedDisc>,
    pub path: Vec<PathStep>,
}

/// `from`, moved by hundredths of the radius.
pub open spec fn moved(from: Double, radius: Double, hundredths: int) -> Double {
    if hundredths == 0 {
        from
    } else if hundredths < 0 {
        from.spec_difference(
            radius.spec_product(crate::double::spec_ratio(-hundredths, 100)),
        )
    } else {
        from.spec_sum(radius.spec_product(crate::double::spec_ratio(hundredths, 100)))
    }
}

fn shift(from: Double, radius: Double, hundredths: i64) -> (r: Double)
    requires
        from.wf() && from.within(0x1000_0000),
        radius.wf() && radius.within(0x1000_0000),
        -100 <= hundredths <= 100,
    ensures
        r == moved(from, radius, hundredths as int),
        r.wf(),
        from.within(0x800_0000) && radius.within(0x800_0000) ==> r.within(0x1000_0000),
{
    if hundredths == 0 {
        from
    } else if hundredths < 0 {
        from.minus(radius.times(ratio(-hundredths, 100)))
    } else {
        from.plus(radius.times(ratio(hundredths, 100)))
    }
}

/// A spot of an icon in the window.
pub open spec fn spot_at(s: Spot, center: Point, radius: Double) -> Point {
    Point {
        x: moved(moved(center.x, radius, s.x as int), radius, s.dx as int),
        y: moved(moved(center.y, radius, s.y as int), radius, s.dy as int),
    }
}

/// The middle of the rectangle and the radius of an icon in it.
pub open spec fn frame_of(rect: ScreenRect) -> (Point, Double) {
    let center = rect.spec_center();
    (
        Point { x: center.0, y: center.1 },
        crate::geometry::spec_lesser(rect.spec_width(), rect.spec_height()).spec_product(
            crate::double::spec_ratio(27, 100),
        ),
    )
}

pub open spec fn step_at(s: Step, center: Point, radius: Double) -> PathStep {
    match s {
        Step::Move(p) => PathStep::Move(spot_at(p, center, radius)),
        Step::Line(p) => PathStep::Line(spot_at(p, center, radius)),
        Step::Curve(p, q, r) => PathStep::Curve(
            spot_at(p, center, radius),
            spot_at(q, center, radius),
            spot_at(r, center, radius),
        ),
        Step::Close => PathStep::Close,
    }
}

pub open spec fn disc_at(d: Disc, center: Point, radius: Double) -> PaintedDisc {
    PaintedDisc {
        center: spot_at(d.spot, center, radius),
        radius: if d.in_pixels {
            crate::double::spec_ratio(d.radius as int, 10)
        } else {
            radius.spec_product(crate::double::spec_ratio(d.radius as int, 100))
        },
        filled: d.filled,
    }
}

/// The rays of the sun: each from about two thirds of the radius outwards, in the directions
/// that are given by cosine and sine.
pub open spec fn rays_upto(rays: Seq<Point>, center: Point, radius: Double, n: nat) -> Seq<PathStep>
    decreases n,
{
    if n == 0 {
        Seq::empty()
    } else {
        let ray = rays[n - 1];
        let inner = crate::double::spec_ratio(68, 100);
        rays_upto(rays, center, radius, (n - 1) as nat) + seq![
            PathStep::Move(
                Point {
                    x: center.x.spec_sum(ray.x.spec_product(radius).spec_product(inner)),
                    y: center.y.spec_sum(ray.y.spec_product(radius).spec_product(inner)),
                },
            ),
            PathStep::Line(
                Point {
                    x: center.x.spec_sum(ray.x.spec_product(radius)),
                    y: center.y.spec_sum(ray.y.spec_product(radius)),
                },
            ),
        ]
    }
}

/// The outline of an icon in the window.
pub open spec fn icon_path(icon: UiIcon, rect: ScreenRect, rays: Seq<Point>) -> Seq<PathStep> {
    let (center, radius) = frame_of(rect);
    if icon == UiIcon::Theme {
        rays_upto(rays, center, radius, rays.len())
    } else {
        steps_of(icon).map_values(|s: Step| step_at(s, center, radius))
    }
}

/// The circles of an icon in the window.
pub open spec fn icon_discs(icon: UiIcon, rect: ScreenRect) -> Seq<PaintedDisc> {
    let (center, radius) = frame_of(rect);
    discs_of(icon).map_values(|d: Disc| disc_at(d, center, radius))
}

fn place(s: Spot, center: Point, radius: Double) -> (r: Point)
    requires
        fits(s),
        center.x.wf() && center.x.within(0x800_0000),
        center.y.wf() && center.y.within(0x800_0000),
        radius.wf() && radius.within(0x800_0000),
    ensures
        r == spot_at(s, center, radius),
{
    Point {
        x: shift(shift(center.x, radius, s.x), radius, s.dx),
        y: shift(shift(center.y, radius, s.y), radius, s.dy),
    }
}

/// Directions that rays can be drawn in.
pub open spec fn wf_rays(rays: Seq<Point>) -> bool {
    forall|i: int|
        0 <= i < rays.len() ==> crate::screen::plain((#[trigger] rays[i]).x) && crate::screen::plain(
            rays[i].y,
        )
}

fn place_steps(icon: UiIcon, center: Point, radius: Double) -> (r: Vec<PathStep>)
    requires
        center.x.wf() && center.x.within(0x800_0000),
        center.y.wf() && center.y.within(0x800_0000),
        radius.wf() && radius.within(0x800_0000),
    ensures
        r@ == steps_of(icon).map_values(|s: Step| step_at(s, center, radius)),
{
    let steps = list_steps(icon);
    let mut path: Vec<PathStep> = Vec::new();
    let mut i: usize = 0;
    while i < steps.len()
        invariant
            i <= steps@.len(),
            steps@ == steps_of(icon),
            center.x.wf() && center.x.within(0x800_0000),
            center.y.wf() && center.y.within(0x800_0000),
            radius.wf() && radius.within(0x800_0000),
            path@.len() == i,
            forall|k: int| 0 <= k < i ==> #[trigger] path@[k] == step_at(steps@[k], center, radius),
        decreases steps@.len() - i,
    {
        proof {
            outlines_stay_in_their_box(icon, i as int);
        }
        let step = match steps[i] {
            Step::Move(p) => PathStep::Move(place(p, center, radius)),
            Step::Line(p) => PathStep::Line(place(p, center, radius)),
            Step::Curve(p, q, r) => PathStep::Curve(
                place(p, center, radius),
                place(q, center, radius),
                place(r, center, radius),
            ),
            Step::Close => PathStep::Close,
        };
        path.push(step);
        i = i + 1;
    }
    proof {
        assert(path@ =~= steps_of(icon).map_values(|s: Step| step_at(s, center, radius)));
    }
    path
}

fn place_discs(icon: UiIcon, center: Point, radius: Double) -> (r: Vec<PaintedDisc>)
    requires
        center.x.wf() && center.x.within(0x800_0000),
        center.y.wf() && center.y.within(0x800_0000),
        radius.wf() && radius.within(0x800_0000),
    ensures
        r@ == discs_of(icon).map_values(|d: Disc| disc_at(d, center, radius)),
{
    let discs = list_discs(icon);
    let mut painted: Vec<PaintedDisc> = Vec::new();
    let mut i: usize = 0;
    while i < discs.len()
        invariant
            i <= discs@.len(),
            discs@ == discs_of(icon),
            center.x.wf() && center.x.within(0x800_0000),
            center.y.wf() && center.y.within(0x800_0000),
            radius.wf() && radius.within(0x800_0000),
            painted@.len() == i,
            forall|k: int|
                0 <= k < i ==> #[trigger] painted@[k] == disc_at(discs@[k], center, radius),
        decreases discs@.len() - i,
    {
        let disc = discs[i];
        assert(fits(disc.spot) && 0 < disc.radius <= 100);
        let size = if disc.in_pixels {
            ratio(disc.radius, 10)
        } else {
            radius.times(ratio(disc.radius, 100))
        };
        painted.push(
            PaintedDisc {
                center: place(disc.spot, center, radius),
                radius: size,
                filled: disc.filled,
            },
        );
        i = i + 1;
    }
    proof {
        assert(painted@ =~= discs_of(icon).map_values(|d: Disc| disc_at(d, center, radius)));
    }
    painted
}

fn place_rays(rays: &Vec<Point>, center: Point, radius: Double) -> (r: Vec<PathStep>)
    requires
        wf_rays(rays@),
        center.x.wf() && center.x.within(0x800_0000),
        center.y.wf() && center.y.within(0x800_0000),
        radius.wf() && radius.within(0x800_0000),
    ensures
        r@ == rays_upto(rays@, center, radius, rays@.len()),
{
    let mut path: Vec<PathStep> = Vec::new();
    let inner = ratio(68, 100);
    let mut i: usize = 0;
    while i < rays.len()
        invariant
            i <= rays@.len(),
            wf_rays(rays@),
            center.x.wf() && center.x.within(0x800_0000),
            center.y.wf() && center.y.within(0x800_0000),
            radius.wf() && radius.within(0x800_0000),
            inner == crate::double::spec_ratio(68, 100),
            inner.wf() && inner.within(400),
            path@ == rays_upto(rays@, center, radius, i as nat),
        decreases rays@.len() - i,
    {
        let ray = rays[i];
        let dx = ray.x.times(radius);
        let dy = ray.y.times(radius);
        let ghost before = path@;
        path.push(
            PathStep::Move(
                Point { x: center.x.plus(dx.times(inner)), y: center.y.plus(dy.times(inner)) },
            ),
        );
        path.push(PathStep::Line(Point { x: center.x.plus(dx), y: center.y.plus(dy) }));
        proof {
            assert(path@ =~= before + seq![path@[path@.len() - 2], path@[path@.len() - 1]]);
        }
        i = i + 1;
    }
    path
}

/// The icon, drawn in the rectangle. `rays` are the directions of the sun's rays.
pub fn draw_ui_icon(icon: UiIcon, rect: ScreenRect, rays: &Vec<Point>) -> (r: IconArt)
    requires
        rect.x0.wf() && rect.x0.within(0x200_0000),
        rect.y0.wf() && rect.y0.within(0x200_0000),
        rect.x1.wf() && rect.x1.within(0x200_0000),
        rect.y1.wf() && rect.y1.within(0x200_0000),
        wf_rays(rays@),
    ensures
        r.path@ == icon_path(icon, rect, rays@),
        r.discs@ == icon_discs(icon, rect),
{
    let two = crate::screen::pixels(2);
    let center = Point {
        x: rect.x0.plus(rect.x1).divided_by(two),
        y: rect.y0.plus(rect.y1).divided_by(two),
    };
    let radius = lesser(rect.x1.minus(rect.x0), rect.y1.minus(rect.y0)).times(ratio(27, 100));
    let path = match icon {
        UiIcon::Theme => place_rays(rays, center, radius),
        _ => place_steps(icon, center, radius),
    };
    IconArt { discs: place_discs(icon, center, radius), path }
}

} // verus!
