//! What placing a sheet, or a pin on one, needs to know of the schematic.

use crate::attachment::to_unsigned;
use crate::double::Double;
use crate::geometry::{snap_point, Point};
use crate::readers::{at_point, tag_point};
use crate::sexp::{is_text, Node};
use crate::text::{chars_of, same, string_of, to_decimal};
use crate::viewer_settings::clamp;
use vstd::prelude::*;

verus! {

/// The outline of a sheet.
#[derive(Clone, Copy, PartialEq, Eq, Structural, Debug)]
pub struct SheetRect {
    pub left: Double,
    pub top: Double,
    pub right: Double,
    pub bottom: Double,
}

impl SheetRect {
    pub open spec fn wf(self) -> bool {
        &&& self.left.wf() && self.left.within(2100)
        &&& self.top.wf() && self.top.within(2100)
        &&& self.right.wf() && self.right.within(2100)
        &&& self.bottom.wf() && self.bottom.within(2100)
    }
}

/// The outline of a sheet, where it has a place and a size.
pub open spec fn outline_of(sheet: crate::sexp::Sexp) -> Option<SheetRect> {
    match (sheet.at_point(), sheet.tag_point("size"@)) {
        (Some(at), Some(size)) => Some(
            SheetRect {
                left: at.x,
                top: at.y,
                right: at.x.spec_sum(size.x),
                bottom: at.y.spec_sum(size.y),
            },
        ),
        _ => None,
    }
}

/// The outline of the first of `sheets`, from the `i`-th on, that has the identifier and an
/// outline.
pub open spec fn outline_from(sheets: Seq<crate::sexp::Sexp>, uuid: Seq<char>, i: nat) -> Option<
    SheetRect,
>
    decreases sheets.len() - i,
{
    if i >= sheets.len() {
        None
    } else if sheets[i as int].first_text("uuid"@) == Some(uuid) && outline_of(
        sheets[i as int],
    ) is Some {
        outline_of(sheets[i as int])
    } else {
        outline_from(sheets, uuid, i + 1)
    }
}

/// The outline of the sheet of the given identifier.
pub fn sheet_rectangle(root: &Node, uuid: &str) -> (r: Option<SheetRect>)
    requires
        root.wf(),
    ensures
        r == outline_from(root@.tagged("sheet"@), uuid@, 0),
        r matches Some(rect) ==> rect.wf(),
{
    let sheets = root.find_all("sheet");
    let ghost all = root@.tagged("sheet"@);
    let mut i: usize = 0;
    while i < sheets.len()
        invariant
            i <= sheets@.len(),
            all == root@.tagged("sheet"@),
            crate::sexp::ref_sexps(sheets@) == all,
            forall|k: int| 0 <= k < sheets@.len() ==> (#[trigger] sheets@[k]).wf(),
            outline_from(all, uuid@, 0) == outline_from(all, uuid@, i as nat),
        decreases sheets@.len() - i,
    {
        let sheet = sheets[i];
        assert(all[i as int] == sheet@);
        if is_text(sheet.find_str("uuid"), uuid) {
            if let Some(at) = at_point(sheet) {
                if let Some(size) = tag_point(sheet, "size") {
                    return Some(
                        SheetRect {
                            left: at.x,
                            top: at.y,
                            right: at.x.plus(size.x),
                            bottom: at.y.plus(size.y),
                        },
                    );
                }
            }
        }
        i = i + 1;
    }
    None
}

/// A side of a sheet, by the direction in degrees that its pins point to.
#[derive(Clone, Copy, PartialEq, Eq, Structural, Debug)]
pub enum Side {
    Right,
    Left,
    Top,
    Bottom,
}

impl Side {
    /// The direction in degrees.
    pub fn rotation(self) -> (r: u16)
        ensures
            r == (match self {
                Side::Right => 0u16,
                Side::Left => 180u16,
                Side::Top => 90u16,
                Side::Bottom => 270u16,
            }),
    {
        match self {
            Side::Right => 0,
            Side::Left => 180,
            Side::Top => 90,
            Side::Bottom => 270,
        }
    }
}

/// How far a point lies from a side.
pub open spec fn distance_to(rect: SheetRect, p: Point, side: Side) -> Double {
    match side {
        Side::Right => p.x.spec_difference(rect.right).spec_abs(),
        Side::Left => p.x.spec_difference(rect.left).spec_abs(),
        Side::Top => p.y.spec_difference(rect.top).spec_abs(),
        Side::Bottom => p.y.spec_difference(rect.bottom).spec_abs(),
    }
}

/// The nearer of two sides, the first where both are as near.
pub open spec fn nearer(rect: SheetRect, p: Point, a: Side, b: Side) -> Side {
    if distance_to(rect, p, b).spec_less(distance_to(rect, p, a)) {
        b
    } else {
        a
    }
}

/// The side that is nearest to a point.
pub open spec fn nearest_side(rect: SheetRect, p: Point) -> Side {
    let a = nearer(rect, p, Side::Right, Side::Left);
    let b = nearer(rect, p, a, Side::Top);
    nearer(rect, p, b, Side::Bottom)
}

/// The point of a side that is nearest to `p`, which lies on the grid already.
pub open spec fn on_side(rect: SheetRect, p: Point, side: Side) -> Point {
    match side {
        Side::Right => Point {
            x: rect.right,
            y: crate::viewer_settings::clamped(p.y, rect.top, rect.bottom),
        },
        Side::Left => Point {
            x: rect.left,
            y: crate::viewer_settings::clamped(p.y, rect.top, rect.bottom),
        },
        Side::Top => Point {
            x: crate::viewer_settings::clamped(p.x, rect.left, rect.right),
            y: rect.top,
        },
        Side::Bottom => Point {
            x: crate::viewer_settings::clamped(p.x, rect.left, rect.right),
            y: rect.bottom,
        },
    }
}

fn distance(rect: SheetRect, p: Point, side: Side) -> (r: Double)
    requires
        rect.wf(),
        p.x.wf() && p.x.within(4000),
        p.y.wf() && p.y.within(4000),
    ensures
        r == distance_to(rect, p, side),
        r.wf(),
{
    match side {
        Side::Right => p.x.minus(rect.right).abs(),
        Side::Left => p.x.minus(rect.left).abs(),
        Side::Top => p.y.minus(rect.top).abs(),
        Side::Bottom => p.y.minus(rect.bottom).abs(),
    }
}

/// Where a pin comes to stand on a sheet, and the side that it stands on: the side nearest to
/// the cursor, and the point of it nearest to the grid point under the cursor.
pub fn nearest_sheet_edge(rect: SheetRect, cursor: Point, grid_mm: Double, snap_enabled: bool) -> (r: (
    Point,
    Side,
))
    requires
        rect.wf(),
        !rect.right.spec_less(rect.left),
        !rect.bottom.spec_less(rect.top),
        cursor.x.wf() && cursor.x.within(4000),
        cursor.y.wf() && cursor.y.within(4000),
        grid_mm.wf() && grid_mm.within(4000),
        grid_mm.mantissa != 0,
    ensures
        r.1 == nearest_side(rect, cursor),
        r.0 == on_side(
            rect,
            if snap_enabled {
                Point {
                    x: crate::geometry::on_grid(cursor.x, grid_mm),
                    y: crate::geometry::on_grid(cursor.y, grid_mm),
                }
            } else {
                cursor
            },
            r.1,
        ),
{
    let snapped = snap_point(cursor, snap_enabled, grid_mm);
    let mut side = Side::Right;
    if distance(rect, cursor, Side::Left).less(distance(rect, cursor, side)) {
        side = Side::Left;
    }
    if distance(rect, cursor, Side::Top).less(distance(rect, cursor, side)) {
        side = Side::Top;
    }
    if distance(rect, cursor, Side::Bottom).less(distance(rect, cursor, side)) {
        side = Side::Bottom;
    }
    let point = match side {
        Side::Right => Point { x: rect.right, y: clamp(snapped.y, rect.top, rect.bottom) },
        Side::Left => Point { x: rect.left, y: clamp(snapped.y, rect.top, rect.bottom) },
        Side::Top => Point { x: clamp(snapped.x, rect.left, rect.right), y: rect.top },
        Side::Bottom => Point { x: clamp(snapped.x, rect.left, rect.right), y: rect.bottom },
    };
    (point, side)
}

/// A pin stands on the edge of its sheet.
pub proof fn pins_stand_on_the_edge(rect: SheetRect, p: Point, side: Side)
    requires
        rect.wf(),
        p.x.wf(),
        p.y.wf(),
        !rect.right.spec_less(rect.left),
        !rect.bottom.spec_less(rect.top),
    ensures
        ({
            let at = on_side(rect, p, side);
            &&& !at.x.spec_less(rect.left) && !rect.right.spec_less(at.x)
            &&& !at.y.spec_less(rect.top) && !rect.bottom.spec_less(at.y)
            &&& at.x == rect.left || at.x == rect.right || at.y == rect.top || at.y == rect.bottom
        }),
{
    crate::double::less_is_total(rect.left, rect.left, rect.right);
    crate::double::less_is_total(rect.right, rect.right, rect.left);
    crate::double::less_is_total(rect.top, rect.top, rect.bottom);
    crate::double::less_is_total(rect.bottom, rect.bottom, rect.top);
}

/// The largest of `most` and the page numbers of the first `n` paths.
pub open spec fn page_upto(paths: Seq<crate::sexp::Sexp>, most: nat, n: nat) -> nat
    decreases n,
{
    if n == 0 {
        most
    } else {
        let before = page_upto(paths, most, (n - 1) as nat);
        match page_of(paths[n - 1]) {
            Some(page) => if page > before {
                page
            } else {
                before
            },
            None => before,
        }
    }
}

/// The page number of a path.
pub open spec fn page_of(path: crate::sexp::Sexp) -> Option<nat> {
    match path.first_text("page"@) {
        Some(text) => crate::attachment::unsigned(text),
        None => None,
    }
}

/// The largest of `most` and the page numbers of the first `n` projects.
pub open spec fn project_page_upto(projects: Seq<crate::sexp::Sexp>, most: nat, n: nat) -> nat
    decreases n,
{
    if n == 0 {
        most
    } else {
        let paths = projects[n - 1].tagged("path"@);
        page_upto(paths, project_page_upto(projects, most, (n - 1) as nat), paths.len())
    }
}

/// The largest of one and the page numbers of the instances of the first `n` sheets.
pub open spec fn sheet_page_upto(sheets: Seq<crate::sexp::Sexp>, n: nat) -> nat
    decreases n,
{
    if n == 0 {
        1
    } else {
        let before = sheet_page_upto(sheets, (n - 1) as nat);
        match sheets[n - 1].first("instances"@) {
            Some(instances) => {
                let projects = instances.tagged("project"@);
                project_page_upto(projects, before, projects.len())
            },
            None => before,
        }
    }
}

/// The largest page number in use.
pub open spec fn last_page(root: crate::sexp::Sexp) -> nat {
    let sheets = root.tagged("sheet"@);
    sheet_page_upto(sheets, sheets.len())
}

fn highest_page(path: &Node, most: u32) -> (r: u32)
    ensures
        r == (match page_of(path@) {
            Some(page) => if page > most {
                page
            } else {
                most as nat
            },
            None => most as nat,
        }),
{
    if let Some(text) = path.find_str("page") {
        let chars = chars_of(text);
        proof {
            assert(chars@.subrange(0, chars@.len() as int) =~= text@);
        }
        if let Some(page) = to_unsigned(&chars, 0, chars.len()) {
            if page > most {
                return page;
            }
        }
    }
    most
}

fn highest_in_project(project: &Node, most: u32) -> (r: u32)
    ensures
        r == page_upto(project@.tagged("path"@), most as nat, project@.tagged("path"@).len()),
{
    let paths = project.find_all("path");
    let ghost all = project@.tagged("path"@);
    let mut r: u32 = most;
    let mut i: usize = 0;
    while i < paths.len()
        invariant
            i <= paths@.len(),
            crate::sexp::ref_sexps(paths@) == all,
            r == page_upto(all, most as nat, i as nat),
        decreases paths@.len() - i,
    {
        assert(all[i as int] == paths@[i as int]@);
        r = highest_page(paths[i], r);
        i = i + 1;
    }
    r
}

fn highest_in_sheet(sheet: &Node, most: u32) -> (r: u32)
    ensures
        r == (match sheet@.first("instances"@) {
            Some(instances) => project_page_upto(
                instances.tagged("project"@),
                most as nat,
                instances.tagged("project"@).len(),
            ),
            None => most as nat,
        }),
{
    let instances = match sheet.find("instances") {
        Some(instances) => instances,
        None => {
            return most;
        },
    };
    let projects = instances.find_all("project");
    let ghost all = instances@.tagged("project"@);
    let mut r: u32 = most;
    let mut i: usize = 0;
    while i < projects.len()
        invariant
            i <= projects@.len(),
            crate::sexp::ref_sexps(projects@) == all,
            r == project_page_upto(all, most as nat, i as nat),
        decreases projects@.len() - i,
    {
        assert(all[i as int] == projects@[i as int]@);
        r = highest_in_project(projects[i], r);
        i = i + 1;
    }
    r
}

/// Where a new sheet is listed: under the schematic's own identifier, as the page after the
/// last.
pub struct SheetInstance {
    pub path: String,
    pub page: String,
}

/// The largest page number in use.
fn find_last_page(root: &Node) -> (r: u32)
    ensures
        r == last_page(root@),
{
    let sheets = root.find_all("sheet");
    let ghost all = root@.tagged("sheet"@);
    let mut most: u32 = 1;
    let mut i: usize = 0;
    while i < sheets.len()
        invariant
            i <= sheets@.len(),
            crate::sexp::ref_sexps(sheets@) == all,
            most == sheet_page_upto(all, i as nat),
        decreases sheets@.len() - i,
    {
        assert(all[i as int] == sheets@[i as int]@);
        most = highest_in_sheet(sheets[i], most);
        i = i + 1;
    }
    most
}

/// Whether there is a page after the last.
pub fn has_next_page(root: &Node) -> (r: bool)
    ensures
        r == (last_page(root@) < u32::MAX),
{
    find_last_page(root) < u32::MAX
}

/// Where a new sheet is listed.
pub fn next_sheet_instance(root: &Node) -> (r: Result<SheetInstance, String>)
    requires
        last_page(root@) < u32::MAX,
    ensures
        match r {
            Ok(instance) => root@.first_text("uuid"@) matches Some(uuid) && uuid.len() > 0
                && instance.path@ == "/"@ + uuid && instance.page@ == crate::text::decimal(
                last_page(root@) + 1,
            ),
            Err(e) => !(root@.first_text("uuid"@) matches Some(uuid) && uuid.len() > 0) && e@
                == "parent schematic has no root UUID"@,
        },
{
    let uuid = match root.find_str("uuid") {
        Some(uuid) => uuid,
        None => {
            return Err("parent schematic has no root UUID".to_owned());
        },
    };
    let length: usize = chars_of(uuid).len();
    if length == 0 {
        return Err("parent schematic has no root UUID".to_owned());
    }
    let most = find_last_page(root);
    let mut path = "/".to_owned();
    path.append(uuid);
    Ok(SheetInstance { path, page: to_decimal(most as u128 + 1) })
}

/// A separator of paths: a slash, and on Windows a backslash too.
pub open spec fn is_separator(c: char, windows: bool) -> bool {
    c == '/' || (windows && c == '\\')
}

/// A path that does not begin where it is read from: it begins with a separator, or on Windows
/// with a drive.
pub open spec fn is_rooted(s: Seq<char>, windows: bool) -> bool {
    ||| s.len() > 0 && is_separator(s[0], windows)
    ||| windows && s.len() > 1 && s[1] == ':' && ('a' <= s[0] <= 'z' || 'A' <= s[0] <= 'Z')
}

/// The parts of a path between its separators, from `from` on; `at` is where the part that is
/// being read begins.
pub open spec fn parts_from(s: Seq<char>, windows: bool, at: nat, from: nat) -> Seq<Seq<char>>
    decreases s.len() - from,
{
    if from >= s.len() {
        seq![s.subrange(at as int, s.len() as int)]
    } else if is_separator(s[from as int], windows) {
        seq![s.subrange(at as int, from as int)] + parts_from(s, windows, from + 1, from + 1)
    } else {
        parts_from(s, windows, at, from + 1)
    }
}

/// A part that stands for nothing: an empty one, or a dot behind another part.
pub open spec fn is_void(parts: Seq<Seq<char>>, i: int) -> bool {
    parts[i].len() == 0 || (parts[i] == seq!['.'] && i > 0)
}

/// A part that leads elsewhere: up, or to where the path is read from.
pub open spec fn is_elsewhere(parts: Seq<Seq<char>>, i: int) -> bool {
    parts[i] == seq!['.', '.'] || (parts[i] == seq!['.'] && i == 0)
}

/// The last of the first `n` parts that stands for something.
pub open spec fn last_part(parts: Seq<Seq<char>>, n: nat) -> Option<Seq<char>>
    decreases n,
{
    if n == 0 {
        None
    } else if is_void(parts, n - 1) {
        last_part(parts, (n - 1) as nat)
    } else {
        Some(parts[n - 1])
    }
}

/// A file name of schematics: something, a dot and `kicad_sch`.
pub open spec fn is_schematic_name(name: Seq<char>) -> bool {
    crate::text::ends(name, ".kicad_sch"@) && name.len() > ".kicad_sch"@.len()
}

/// A path that a sheet may name: it leads down from the directory that it is read from to a
/// schematic.
pub open spec fn is_child_path(s: Seq<char>, windows: bool) -> bool {
    let parts = parts_from(s, windows, 0, 0);
    &&& !is_rooted(s, windows)
    &&& forall|i: int| 0 <= i < parts.len() ==> !#[trigger] is_elsewhere(parts, i)
    &&& last_part(parts, parts.len()) matches Some(name) && is_schematic_name(name)
}

fn split_path(s: &Vec<char>, windows: bool) -> (r: Vec<String>)
    ensures
        crate::text::views(r@) == parts_from(s@, windows, 0, 0),
{
    let mut r: Vec<String> = Vec::new();
    let mut at: usize = 0;
    let mut i: usize = 0;
    proof {
        assert(crate::text::views(r@) + parts_from(s@, windows, 0, 0) =~= parts_from(s@, windows, 0, 0));
    }
    while i < s.len()
        invariant
            at <= i <= s@.len(),
            crate::text::views(r@) + parts_from(s@, windows, at as nat, i as nat) == parts_from(s@, windows, 0, 0),
        decreases s@.len() - i,
    {
        if s[i] == '/' || (windows && s[i] == '\\') {
            let ghost before = crate::text::views(r@);
            let part = string_of(s, at, i);
            r.push(part);
            proof {
                assert(crate::text::views(r@) =~= before.push(part@));
                assert(before + (seq![part@] + parts_from(s@, windows, i as nat + 1, i as nat + 1))
                    =~= before.push(part@) + parts_from(s@, windows, i as nat + 1, i as nat + 1));
            }
            at = i + 1;
        }
        i = i + 1;
    }
    let ghost before = crate::text::views(r@);
    let part = string_of(s, at, s.len());
    r.push(part);
    proof {
        assert(crate::text::views(r@) =~= before.push(part@));
        assert(before + seq![part@] =~= before.push(part@));
    }
    r
}

fn names_schematic(name: &str) -> (r: bool)
    ensures
        r == is_schematic_name(name@),
{
    let length: usize = chars_of(name).len();
    let least: usize = chars_of(".kicad_sch").len();
    crate::text::ends_with(name, ".kicad_sch") && length > least
}

/// Whether a sheet may name the path.
pub fn check_child_path(path: &str, windows: bool) -> (r: bool)
    ensures
        r == is_child_path(path@, windows),
{
    let chars = chars_of(path);
    if chars.len() > 0 && (chars[0] == '/' || (windows && chars[0] == '\\')) {
        return false;
    }
    if windows && chars.len() > 1 && chars[1] == ':' && (('a' <= chars[0] && chars[0] <= 'z') || (
    'A' <= chars[0] && chars[0] <= 'Z')) {
        return false;
    }
    let parts = split_path(&chars, windows);
    let ghost all = parts_from(path@, windows, 0, 0);
    proof {
        reveal_strlit("..");
        reveal_strlit(".");
        assert(".."@ =~= seq!['.', '.']);
        assert("."@ =~= seq!['.']);
    }
    let mut last: Option<usize> = None;
    let mut i: usize = 0;
    while i < parts.len()
        invariant
            i <= parts@.len(),
            crate::text::views(parts@) == all,
            ".."@ == seq!['.', '.'],
            "."@ == seq!['.'],
            all == parts_from(path@, windows, 0, 0),
            forall|k: int| 0 <= k < i ==> !#[trigger] is_elsewhere(all, k),
            match last {
                Some(k) => k < i && last_part(all, i as nat) == Some(all[k as int]),
                None => last_part(all, i as nat) is None,
            },
        decreases parts@.len() - i,
    {
        assert(all[i as int] == parts@[i as int]@);
        let part = parts[i].as_str();
        let dot = same(part, ".");
        if same(part, "..") || (dot && i == 0) {
            assert(is_elsewhere(all, i as int));
            return false;
        }
        let length: usize = chars_of(part).len();
        if !(length == 0 || dot) {
            last = Some(i);
        }
        i = i + 1;
    }
    match last {
        Some(k) => {
            assert(all[k as int] == parts@[k as int]@);
            names_schematic(parts[k].as_str())
        },
        None => false,
    }
}

/// No path that a sheet may name leads up, or begins elsewhere than where it is read from.
pub proof fn child_paths_do_not_climb(s: Seq<char>, windows: bool, i: int)
    requires
        is_child_path(s, windows),
        0 <= i < parts_from(s, windows, 0, 0).len(),
    ensures
        parts_from(s, windows, 0, 0)[i] != seq!['.', '.'],
        !is_rooted(s, windows),
{
    assert(!is_elsewhere(parts_from(s, windows, 0, 0), i));
}

} // verus!
