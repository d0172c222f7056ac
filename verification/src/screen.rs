//! Where things stand in the window: the page, the tools, the strip of sheets, the timeline
//! and the panel of warnings. All lengths are pixels, but for those of the page.

use crate::double::{ratio, Double};
use crate::geometry::{greater, lesser, Bounds, Point};
use vstd::prelude::*;

verus! {

/// The height of the line of status.
pub const STATUS_HEIGHT: i64 = 40;

/// The width of the bar of tools.
pub const SIDEBAR_WIDTH: i64 = 96;

/// The height of the strip of sheets, with the timeline under it.
pub const FILMSTRIP_HEIGHT: i64 = 180;

/// The height of the timeline.
pub const TIMELINE_HEIGHT: i64 = 50;

/// What is left free round a page that fits.
pub const PAGE_PADDING: i64 = 16;

/// The width of a sheet's card.
pub const THUMBNAIL_WIDTH: i64 = 150;

/// What is left free between two cards.
pub const THUMBNAIL_GAP: i64 = 8;

/// The width of the panel of warnings.
pub const DIAGNOSTICS_PANEL_WIDTH: i64 = 620;

/// The height of that panel's head.
pub const DIAGNOSTICS_HEADER_HEIGHT: i64 = 38;

/// A whole number of pixels.
pub open spec fn px(n: int) -> Double {
    crate::double::nearest(n, 0)
}

/// A whole number of pixels.
pub fn pixels(n: i64) -> (r: Double)
    requires
        -0x1000_0000_0000 <= n <= 0x1000_0000_0000,
    ensures
        r == px(n as int),
        r.wf(),
        r.within(100),
        r.exponent <= 2,
        r.negative == (n < 0),
        r.mantissa == 0 <==> n == 0,
{
    Double::from_int(n)
}

/// Numbers that come from the window, the settings or a schematic.
pub open spec fn plain(d: Double) -> bool {
    d.wf() && d.within(0x1_0000)
}

pub open spec fn fair(d: Double) -> bool {
    d.wf() && d.within(0x100_0000)
}

/// A rectangle of the window.
#[derive(Clone, Copy, PartialEq, Eq, Structural, Debug)]
pub struct ScreenRect {
    pub x0: Double,
    pub y0: Double,
    pub x1: Double,
    pub y1: Double,
}

impl ScreenRect {
    pub open spec fn wf(self) -> bool {
        fair(self.x0) && fair(self.y0) && fair(self.x1) && fair(self.y1)
    }

    /// No exponent of a side lies further from zero than `bound`.
    pub open spec fn within(self, bound: int) -> bool {
        self.x0.within(bound) && self.y0.within(bound) && self.x1.within(bound) && self.y1.within(
            bound,
        )
    }

    /// The sides are numbers, however far out.
    pub open spec fn calm(self) -> bool {
        self.x0.wf() && self.y0.wf() && self.x1.wf() && self.y1.wf() && self.within(
            0x1000_0000_0000,
        )
    }

    pub open spec fn spec_width(self) -> Double {
        self.x1.spec_difference(self.x0)
    }

    pub open spec fn spec_height(self) -> Double {
        self.y1.spec_difference(self.y0)
    }

    pub fn width(self) -> (r: Double)
        requires
            self.wf(),
        ensures
            r == self.spec_width(),
            r.wf(),
            r.within(0x200_0000),
            forall|k: int| k >= 100 && #[trigger] self.within(k) ==> r.within(k + 100),
    {
        self.x1.minus(self.x0)
    }

    pub fn height(self) -> (r: Double)
        requires
            self.wf(),
        ensures
            r == self.spec_height(),
            r.wf(),
            r.within(0x200_0000),
            forall|k: int| k >= 100 && #[trigger] self.within(k) ==> r.within(k + 100),
    {
        self.y1.minus(self.y0)
    }

    /// The point lies in the rectangle or on its edge.
    pub open spec fn holds(self, x: Double, y: Double) -> bool {
        !x.spec_less(self.x0) && !self.x1.spec_less(x) && !y.spec_less(self.y0)
            && !self.y1.spec_less(y)
    }

    pub fn contains(self, x: Double, y: Double) -> (r: bool)
        requires
            self.calm(),
            x.wf(),
            y.wf(),
        ensures
            r == self.holds(x, y),
    {
        self.x0.at_most(x) && x.at_most(self.x1) && self.y0.at_most(y) && y.at_most(self.y1)
    }

    pub open spec fn spec_center(self) -> (Double, Double) {
        (
            self.x0.spec_sum(self.x1).spec_quotient(px(2)),
            self.y0.spec_sum(self.y1).spec_quotient(px(2)),
        )
    }

    pub fn center(self) -> (r: (Double, Double))
        requires
            self.calm(),
        ensures
            r == self.spec_center(),
            r.0.wf(),
            r.1.wf(),
            self.wf() ==> r.0.within(0x200_0000) && r.1.within(0x200_0000),
            forall|k: int| k >= 100 && #[trigger] self.within(k) ==> r.0.within(k + 400)
                && r.1.within(k + 400),
    {
        let two = pixels(2);
        (self.x0.plus(self.x1).divided_by(two), self.y0.plus(self.y1).divided_by(two))
    }

    /// The rectangle moved down.
    pub open spec fn spec_lowered(self, dy: Double) -> ScreenRect {
        ScreenRect { y0: self.y0.spec_sum(dy), y1: self.y1.spec_sum(dy), ..self }
    }

    /// The rectangle with its sides moved inwards by whole pixels.
    pub open spec fn spec_inset(self, by: int) -> ScreenRect {
        ScreenRect {
            x0: self.x0.spec_sum(px(by)),
            y0: self.y0.spec_sum(px(by)),
            x1: self.x1.spec_difference(px(by)),
            y1: self.y1.spec_difference(px(by)),
        }
    }

    pub fn inset(self, amount: i64) -> (r: ScreenRect)
        requires
            self.wf(),
            0 <= amount <= 1000,
        ensures
            r == self.spec_inset(amount as int),
            r.x0.wf() && r.x0.within(0x200_0000),
            r.y0.wf() && r.y0.within(0x200_0000),
            r.x1.wf() && r.x1.within(0x200_0000),
            r.y1.wf() && r.y1.within(0x200_0000),
    {
        let d = pixels(amount);
        ScreenRect {
            x0: self.x0.plus(d),
            y0: self.y0.plus(d),
            x1: self.x1.minus(d),
            y1: self.y1.minus(d),
        }
    }
}

/// The part of the window that shows the page.
pub open spec fn main_area(width: Double, height: Double) -> ScreenRect {
    ScreenRect {
        x0: px(SIDEBAR_WIDTH as int),
        y0: px(STATUS_HEIGHT as int),
        x1: width,
        y1: crate::geometry::spec_greater(
            height.spec_difference(px(FILMSTRIP_HEIGHT as int)),
            px(STATUS_HEIGHT + 1),
        ),
    }
}

/// The part of the window that shows the page.
pub fn main_rect(width: Double, height: Double) -> (r: ScreenRect)
    requires
        plain(width),
        plain(height),
    ensures
        r == main_area(width, height),
        r.wf(),
        r.within(0x2_0000),
{
    ScreenRect {
        x0: pixels(SIDEBAR_WIDTH),
        y0: pixels(STATUS_HEIGHT),
        x1: width,
        y1: greater(height.minus(pixels(FILMSTRIP_HEIGHT)), pixels(STATUS_HEIGHT + 1)),
    }
}

/// The strip of sheets, with the timeline.
pub open spec fn film_area(width: Double, height: Double) -> ScreenRect {
    ScreenRect {
        x0: px(SIDEBAR_WIDTH as int),
        y0: crate::geometry::spec_greater(
            height.spec_difference(px(FILMSTRIP_HEIGHT as int)),
            px(STATUS_HEIGHT as int),
        ),
        x1: width,
        y1: height,
    }
}

/// The strip of sheets, with the timeline.
pub fn filmstrip_rect(width: Double, height: Double) -> (r: ScreenRect)
    requires
        plain(width),
        plain(height),
    ensures
        r == film_area(width, height),
        r.wf(),
{
    ScreenRect {
        x0: pixels(SIDEBAR_WIDTH),
        y0: greater(height.minus(pixels(FILMSTRIP_HEIGHT)), pixels(STATUS_HEIGHT)),
        x1: width,
        y1: height,
    }
}

/// The size of a page in millimetres.
#[derive(Clone, Copy, PartialEq, Eq, Structural, Debug)]
pub struct Page {
    pub width: Double,
    pub height: Double,
}

impl Page {
    /// A page that something can be drawn on.
    pub open spec fn wf(self) -> bool {
        &&& plain(self.width)
        &&& plain(self.height)
        &&& self.width.mantissa != 0
        &&& self.height.mantissa != 0
    }
}

/// How the page is looked at: how much it is enlarged and how far it is moved.
#[derive(Clone, Copy, PartialEq, Eq, Structural, Debug)]
pub struct Camera {
    pub zoom: Double,
    pub pan_x: Double,
    pub pan_y: Double,
}

impl Camera {
    pub open spec fn wf(self) -> bool {
        &&& plain(self.zoom)
        &&& plain(self.pan_x)
        &&& plain(self.pan_y)
        &&& self.zoom.mantissa != 0
    }

    pub open spec fn spec_fit() -> Camera {
        Camera { zoom: px(1), pan_x: px(0), pan_y: px(0) }
    }

    /// The page as a whole.
    pub fn fit() -> (r: Camera)
        ensures
            r == Camera::spec_fit(),
            r.wf(),
    {
        Camera { zoom: pixels(1), pan_x: pixels(0), pan_y: pixels(0) }
    }
}

/// How many pixels a millimetre takes where the page fits the window.
pub open spec fn fit_scale(width: Double, height: Double, page: Page) -> Double {
    let area = main_area(width, height);
    let pad = px(2 * PAGE_PADDING);
    crate::geometry::spec_greater(
        crate::geometry::spec_lesser(
            area.spec_width().spec_difference(pad).spec_quotient(page.width),
            area.spec_height().spec_difference(pad).spec_quotient(page.height),
        ),
        crate::double::spec_ratio(1, 1000),
    )
}

fn find_fit(width: Double, height: Double, page: Page) -> (r: Double)
    requires
        plain(width),
        plain(height),
        page.wf(),
    ensures
        r == fit_scale(width, height, page),
        r.wf(),
        r.within(0x8_0000),
        r.mantissa != 0,
{
    let area = main_rect(width, height);
    let pad = pixels(2 * PAGE_PADDING);
    let across = area.width().minus(pad).divided_by(page.width);
    let down = area.height().minus(pad).divided_by(page.height);
    let least = ratio(1, 1000);
    let r = greater(lesser(across, down), least);
    proof {
        reveal(Double::spec_quotient);
        assert(!least.negative) by {
            crate::screen::lemma_thousandth(least);
        }
        crate::geometry::at_least_positive_is_not_zero(r, least);
    }
    r
}

proof fn lemma_thousandth(least: Double)
    requires
        least == crate::double::spec_ratio(1, 1000),
    ensures
        !least.negative,
{
    reveal(Double::spec_quotient);
}

/// Where the page is shown: a point lies at its millimetres times `scale`, moved by `x` and
/// `y`.
#[derive(Clone, Copy, PartialEq, Eq, Structural, Debug)]
pub struct PageTransform {
    pub scale: Double,
    pub x: Double,
    pub y: Double,
}

/// Where the page is shown.
pub open spec fn shown_page(width: Double, height: Double, page: Page, camera: Camera) -> PageTransform {
    let scale = fit_scale(width, height, page).spec_product(camera.zoom);
    let center = main_area(width, height).spec_center();
    PageTransform {
        scale,
        x: center.0.spec_sum(camera.pan_x).spec_difference(
            page.width.spec_product(scale).spec_quotient(px(2)),
        ),
        y: center.1.spec_sum(camera.pan_y).spec_difference(
            page.height.spec_product(scale).spec_quotient(px(2)),
        ),
    }
}

/// Where the page is shown.
pub fn page_transform(width: Double, height: Double, page: Page, camera: Camera) -> (r: PageTransform)
    requires
        plain(width),
        plain(height),
        page.wf(),
        camera.wf(),
    ensures
        r == shown_page(width, height, page, camera),
        r.scale.wf(),
        r.scale.within(0xa_0000),
        r.scale.mantissa != 0,
        r.x.wf(),
        r.x.within(0x10_0000),
        r.y.wf(),
        r.y.within(0x10_0000),
{
    let scale = find_fit(width, height, page).times(camera.zoom);
    let (center_x, center_y) = main_rect(width, height).center();
    let two = pixels(2);
    PageTransform {
        scale,
        x: center_x.plus(camera.pan_x).minus(page.width.times(scale).divided_by(two)),
        y: center_y.plus(camera.pan_y).minus(page.height.times(scale).divided_by(two)),
    }
}

/// The point of the page under a point of the window.
pub open spec fn point_under(t: PageTransform, x: Double, y: Double) -> Point {
    Point {
        x: x.spec_difference(t.x).spec_quotient(t.scale),
        y: y.spec_difference(t.y).spec_quotient(t.scale),
    }
}

/// The point of the page under a point of the window.
pub fn schematic_point(
    width: Double,
    height: Double,
    page: Page,
    camera: Camera,
    x: Double,
    y: Double,
) -> (r: Point)
    requires
        plain(width),
        plain(height),
        page.wf(),
        camera.wf(),
        plain(x),
        plain(y),
    ensures
        r == point_under(shown_page(width, height, page, camera), x, y),
        r.x.wf(),
        r.x.within(0x20_0000),
        r.y.wf(),
        r.y.within(0x20_0000),
{
    let t = page_transform(width, height, page, camera);
    Point { x: x.minus(t.x).divided_by(t.scale), y: y.minus(t.y).divided_by(t.scale) }
}

/// The enlargement nearest to `zoom` that is allowed.
pub open spec fn allowed_zoom(zoom: Double) -> Double {
    if zoom.spec_less(crate::double::spec_ratio(1, 10)) {
        crate::double::spec_ratio(1, 10)
    } else if px(40).spec_less(zoom) {
        px(40)
    } else {
        zoom
    }
}

fn clamp_zoom(zoom: Double) -> (r: Double)
    requires
        fair(zoom),
    ensures
        r == allowed_zoom(zoom),
        fair(r),
        r.mantissa != 0,
{
    let least = ratio(1, 10);
    let most = pixels(40);
    if zoom.less(least) {
        least
    } else if most.less(zoom) {
        most
    } else {
        proof {
            reveal(Double::spec_quotient);
            crate::geometry::at_least_positive_is_not_zero(zoom, least);
        }
        zoom
    }
}

/// The page enlarged by `zoom`, so that the point under `x` and `y` stays where it is.
pub open spec fn zoomed_about(
    width: Double,
    height: Double,
    page: Page,
    camera: Camera,
    zoom: Double,
    x: Double,
    y: Double,
) -> Camera {
    let world = point_under(shown_page(width, height, page, camera), x, y);
    let zoom = allowed_zoom(zoom);
    let scale = fit_scale(width, height, page).spec_product(zoom);
    let center = main_area(width, height).spec_center();
    Camera {
        zoom,
        pan_x: x.spec_difference(center.0).spec_difference(
            world.x.spec_difference(page.width.spec_quotient(px(2))).spec_product(scale),
        ),
        pan_y: y.spec_difference(center.1).spec_difference(
            world.y.spec_difference(page.height.spec_quotient(px(2))).spec_product(scale),
        ),
    }
}

/// The page enlarged by `zoom`, between a tenth and forty times, about a point of the window.
pub fn set_zoom_about(
    width: Double,
    height: Double,
    page: Page,
    camera: Camera,
    zoom: Double,
    x: Double,
    y: Double,
) -> (r: Camera)
    requires
        plain(width),
        plain(height),
        page.wf(),
        camera.wf(),
        fair(zoom),
        plain(x),
        plain(y),
    ensures
        r == zoomed_about(width, height, page, camera, zoom, x, y),
        r.zoom.wf(),
        r.zoom.mantissa != 0,
        r.pan_x.wf(),
        r.pan_y.wf(),
{
    let world = schematic_point(width, height, page, camera, x, y);
    let zoom = clamp_zoom(zoom);
    let scale = find_fit(width, height, page).times(zoom);
    let (center_x, center_y) = main_rect(width, height).center();
    let two = pixels(2);
    Camera {
        zoom,
        pan_x: x.minus(center_x).minus(world.x.minus(page.width.divided_by(two)).times(scale)),
        pan_y: y.minus(center_y).minus(world.y.minus(page.height.divided_by(two)).times(scale)),
    }
}

/// The page enlarged by `zoom` with `target` in the middle.
pub open spec fn centered_on(
    width: Double,
    height: Double,
    page: Page,
    zoom: Double,
    target: Point,
) -> Camera {
    let scale = fit_scale(width, height, page).spec_product(zoom);
    Camera {
        zoom,
        pan_x: page.width.spec_quotient(px(2)).spec_difference(target.x).spec_product(scale),
        pan_y: page.height.spec_quotient(px(2)).spec_difference(target.y).spec_product(scale),
    }
}

fn center_on(width: Double, height: Double, page: Page, zoom: Double, target: Point) -> (r: Camera)
    requires
        plain(width),
        plain(height),
        page.wf(),
        plain(zoom),
        fair(target.x),
        fair(target.y),
    ensures
        r == centered_on(width, height, page, zoom, target),
        r.pan_x.wf(),
        r.pan_y.wf(),
{
    let scale = find_fit(width, height, page).times(zoom);
    let two = pixels(2);
    Camera {
        zoom,
        pan_x: page.width.divided_by(two).minus(target.x).times(scale),
        pan_y: page.height.divided_by(two).minus(target.y).times(scale),
    }
}

/// The page enlarged four times with `point` in the middle.
pub fn focus_point(width: Double, height: Double, page: Page, point: Point) -> (r: Camera)
    requires
        plain(width),
        plain(height),
        page.wf(),
        fair(point.x),
        fair(point.y),
    ensures
        r == centered_on(width, height, page, px(4), point),
        r.pan_x.wf(),
        r.pan_y.wf(),
{
    center_on(width, height, page, pixels(4), point)
}

/// The middle of a box.
pub open spec fn middle(b: Bounds) -> Point {
    Point {
        x: b.min_x.spec_sum(b.max_x).spec_quotient(px(2)),
        y: b.min_y.spec_sum(b.max_y).spec_quotient(px(2)),
    }
}

/// Where a change is shown: enlarged three times round what it changed, or the page as a
/// whole where nothing of it is there.
pub fn follow_change(width: Double, height: Double, page: Page, changed: Option<Bounds>) -> (r: Camera)
    requires
        plain(width),
        plain(height),
        page.wf(),
        changed matches Some(b) ==> plain(b.min_x) && plain(b.min_y) && plain(b.max_x) && plain(
            b.max_y,
        ),
    ensures
        r == (match changed {
            Some(b) => centered_on(width, height, page, px(3), middle(b)),
            None => Camera::spec_fit(),
        }),
        r.pan_x.wf(),
        r.pan_y.wf(),
{
    match changed {
        Some(b) => {
            let two = pixels(2);
            let target = Point {
                x: b.min_x.plus(b.max_x).divided_by(two),
                y: b.min_y.plus(b.max_y).divided_by(two),
            };
            center_on(width, height, page, pixels(3), target)
        },
        None => Camera::fit(),
    }
}

/// The box round two boxes.
pub open spec fn round_both(left: Bounds, right: Bounds) -> Bounds {
    Bounds {
        min_x: crate::geometry::spec_lesser(left.min_x, right.min_x),
        min_y: crate::geometry::spec_lesser(left.min_y, right.min_y),
        max_x: crate::geometry::spec_greater(left.max_x, right.max_x),
        max_y: crate::geometry::spec_greater(left.max_y, right.max_y),
    }
}

/// The smallest box round two.
pub fn union_bounds(left: Bounds, right: Bounds) -> (r: Bounds)
    requires
        left.wf(),
        right.wf(),
    ensures
        r == round_both(left, right),
        r.wf(),
{
    Bounds {
        min_x: lesser(left.min_x, right.min_x),
        min_y: lesser(left.min_y, right.min_y),
        max_x: greater(left.max_x, right.max_x),
        max_y: greater(left.max_y, right.max_y),
    }
}

} // verus!
