//! What the viewer reads from the expressions of a schematic.

use crate::double::Double;
use crate::geometry::Point;
use crate::sexp::is_text;
use crate::sexp::Node;
use crate::text::same;
use vstd::prelude::*;

verus! {

/// How text is aligned to its position.
#[derive(Clone, Copy, PartialEq, Eq, Structural, Debug)]
pub enum TextAlign {
    Left,
    Center,
    Right,
}

impl Point {
    /// The coordinates are numbers of a file.
    pub open spec fn is_read(self) -> bool {
        self.x.wf() && self.y.wf() && self.x.within(2000) && self.y.within(2000)
    }
}

impl crate::sexp::Sexp {
    /// The two numbers after `tag` in the first list that begins with it.
    pub open spec fn tag_point(self, tag: Seq<char>) -> Option<Point> {
        match self.first(tag) {
            Some(part) => part.xy(),
            None => None,
        }
    }

    /// The two numbers after the first word.
    pub open spec fn xy(self) -> Option<Point> {
        match (self.part_number(1), self.part_number(2)) {
            (Some(x), Some(y)) => Some(Point { x, y }),
            _ => None,
        }
    }

    /// The position of an item.
    pub open spec fn at_point(self) -> Option<Point> {
        self.tag_point("at"@)
    }

    /// The rotation of an item.
    pub open spec fn at_rotation(self) -> Double {
        match self.first("at"@) {
            Some(at) => match at.part_number(3) {
                Some(turn) => turn,
                None => Double::spec_zero(),
            },
            None => Double::spec_zero(),
        }
    }

    pub open spec fn first_number(self, tag: Seq<char>) -> Option<Double> {
        match self.first(tag) {
            Some(part) => part.part_number(1),
            None => None,
        }
    }

    /// The part for `inner` in the part for `outer`.
    pub open spec fn nested(self, outer: Seq<char>, inner: Seq<char>) -> Option<crate::sexp::Sexp> {
        match self.first(outer) {
            Some(part) => part.first(inner),
            None => None,
        }
    }

    /// A field that is not shown.
    pub open spec fn hidden(self) -> bool {
        self.first("hide"@) is Some || self.nested("effects"@, "hide"@) is Some
    }

    /// The properties.
    pub open spec fn properties(self) -> Seq<crate::sexp::Sexp> {
        self.tagged("property"@)
    }
}

/// The first of the properties from `from` on with the given name.
pub open spec fn property_from(
    properties: Seq<crate::sexp::Sexp>,
    name: Seq<char>,
    from: nat,
) -> Option<crate::sexp::Sexp>
    decreases properties.len() - from,
{
    if from >= properties.len() {
        None
    } else if properties[from as int].part_text(1) == Some(name) {
        Some(properties[from as int])
    } else {
        property_from(properties, name, from + 1)
    }
}

/// The value of the first of the properties from `from` on that has the given name and a value.
pub open spec fn value_from(
    properties: Seq<crate::sexp::Sexp>,
    name: Seq<char>,
    from: nat,
) -> Option<Seq<char>>
    decreases properties.len() - from,
{
    if from >= properties.len() {
        None
    } else if properties[from as int].part_text(1) == Some(name)
        && properties[from as int].part_text(2) is Some {
        properties[from as int].part_text(2)
    } else {
        value_from(properties, name, from + 1)
    }
}

/// The reference of a symbol, as a value.
pub open spec fn reference_of(node: crate::sexp::Sexp) -> Option<Seq<char>> {
    match property_from(node.properties(), "Reference"@, 0) {
        Some(property) => property.part_text(2),
        None => None,
    }
}

/// The value of a property of a sheet, as a value.
pub open spec fn sheet_value(node: crate::sexp::Sexp, name: Seq<char>) -> Option<Seq<char>> {
    value_from(node.properties(), name, 0)
}

/// The two numbers after the first word of a list.
pub fn xy(node: &Node) -> (r: Option<Point>)
    ensures
        r == node@.xy(),
        node.wf() ==> (r matches Some(p) ==> p.wf() && p.is_read()),
{
    match (node.get_number(1), node.get_number(2)) {
        (Some(x), Some(y)) => Some(Point { x, y }),
        _ => None,
    }
}

/// The two numbers after `tag` in the first list that begins with it.
pub fn tag_point(node: &Node, tag: &str) -> (r: Option<Point>)
    ensures
        r == node@.tag_point(tag@),
        node.wf() ==> (r matches Some(p) ==> p.wf() && p.is_read()),
{
    match node.find(tag) {
        Some(part) => xy(part),
        None => None,
    }
}

/// The position of an item.
pub fn at_point(node: &Node) -> (r: Option<Point>)
    ensures
        r == node@.at_point(),
        node.wf() ==> (r matches Some(p) ==> p.wf() && p.is_read()),
{
    tag_point(node, "at")
}

/// The rotation of an item.
pub fn at_rotation(node: &Node) -> (r: Double)
    ensures
        r == node@.at_rotation(),
        node.wf() ==> r.wf() && r.within(2000) && r.exponent <= 0,
{
    let none = Double { negative: false, mantissa: 0, exponent: 0 };
    match node.find("at") {
        Some(at) => match at.get_number(3) {
            Some(turn) => turn,
            None => none,
        },
        None => none,
    }
}

/// The text that follows `tag` in the first list that begins with it.
pub fn child_text<'a>(node: &'a Node, tag: &str) -> (r: Option<&'a str>)
    ensures
        crate::sexp::ref_view(r) == node@.first_text(tag@),
{
    node.find_str(tag)
}

/// The number that follows `tag` in the first list that begins with it.
pub fn child_number(node: &Node, tag: &str) -> (r: Option<Double>)
    ensures
        r == node@.first_number(tag@),
        node.wf() ==> (r matches Some(n) ==> n.wf() && n.within(2000) && n.exponent <= 0),
{
    match node.find(tag) {
        Some(part) => part.get_number(1),
        None => None,
    }
}

/// The part for `inner` in the part for `outer`.
pub fn find_nested<'a>(node: &'a Node, outer: &str, inner: &str) -> (r: Option<&'a Node>)
    ensures
        match r {
            Some(part) => node@.nested(outer@, inner@) == Some(part@) && (node.wf() ==> part.wf()),
            None => node@.nested(outer@, inner@) is None,
        },
{
    match node.find(outer) {
        Some(part) => part.find(inner),
        None => None,
    }
}

/// A field that is not shown.
pub fn is_hidden(node: &Node) -> (r: bool)
    ensures
        r == node@.hidden(),
{
    node.find("hide").is_some() || find_nested(node, "effects", "hide").is_some()
}

/// The reference of a symbol.
pub fn symbol_reference(node: &Node) -> (r: Option<&str>)
    ensures
        crate::sexp::ref_view(r) == reference_of(node@),
{
    let properties = node.find_all("property");
    let ghost all = node@.properties();
    let mut i: usize = 0;
    while i < properties.len()
        invariant
            i <= properties@.len(),
            crate::sexp::ref_sexps(properties@) == all,
            all == node@.properties(),
            property_from(all, "Reference"@, 0) == property_from(all, "Reference"@, i as nat),
        decreases properties@.len() - i,
    {
        let property = properties[i];
        assert(all[i as int] == property@);
        if is_text(property.get_str(1), "Reference") {
            return property.get_str(2);
        }
        i = i + 1;
    }
    None
}

/// The value of a property of a sheet.
pub fn sheet_property<'a>(sheet: &'a Node, name: &str) -> (r: Option<&'a str>)
    ensures
        crate::sexp::ref_view(r) == sheet_value(sheet@, name@),
{
    let properties = sheet.find_all("property");
    let ghost all = sheet@.properties();
    let mut i: usize = 0;
    while i < properties.len()
        invariant
            i <= properties@.len(),
            crate::sexp::ref_sexps(properties@) == all,
            all == sheet@.properties(),
            value_from(all, name@, 0) == value_from(all, name@, i as nat),
        decreases properties@.len() - i,
    {
        let property = properties[i];
        assert(all[i as int] == property@);
        if is_text(property.get_str(1), name) {
            match property.get_str(2) {
                Some(value) => {
                    return Some(value);
                },
                None => {},
            }
        }
        i = i + 1;
    }
    None
}

/// How text is aligned, as a value.
pub open spec fn align_of(node: crate::sexp::Sexp) -> TextAlign {
    match node.nested("effects"@, "justify"@) {
        Some(justify) => if justify.part_text(1) == Some("left"@) {
            TextAlign::Left
        } else if justify.part_text(1) == Some("right"@) {
            TextAlign::Right
        } else {
            TextAlign::Center
        },
        None => TextAlign::Center,
    }
}

/// How text is aligned.
pub fn text_align(node: &Node) -> (r: TextAlign)
    ensures
        r == align_of(node@),
{
    match find_nested(node, "effects", "justify") {
        Some(justify) => {
            if is_text(justify.get_str(1), "left") {
                TextAlign::Left
            } else if is_text(justify.get_str(1), "right") {
                TextAlign::Right
            } else {
                TextAlign::Center
            }
        },
        None => TextAlign::Center,
    }
}

/// Text in italics, as a value.
pub open spec fn italic_of(node: crate::sexp::Sexp) -> bool {
    node.nested("effects"@, "font"@) matches Some(font) && font.first("italic"@) is Some
}

/// Text in italics.
pub fn text_italic(node: &Node) -> (r: bool)
    ensures
        r == italic_of(node@),
{
    match find_nested(node, "effects", "font") {
        Some(font) => font.find("italic").is_some(),
        None => false,
    }
}

/// The size of text, as a value.
pub open spec fn size_of(node: crate::sexp::Sexp, default: Double) -> Double {
    match node.nested("effects"@, "font"@) {
        Some(font) => match font.first("size"@) {
            Some(size) => match (size.part_number(2), size.part_number(1)) {
                (Some(height), _) => height,
                (None, Some(width)) => width,
                (None, None) => default,
            },
            None => default,
        },
        None => default,
    }
}

/// The size of text: its height where it is given, else its width.
pub fn text_size(node: &Node, default: Double) -> (r: Double)
    ensures
        r == size_of(node@, default),
        node.wf() ==> r == default || (r.wf() && r.within(2000) && r.exponent <= 0),
{
    match find_nested(node, "effects", "font") {
        Some(font) => match font.find("size") {
            Some(size) => match size.get_number(2) {
                Some(height) => height,
                None => match size.get_number(1) {
                    Some(width) => width,
                    None => default,
                },
            },
            None => default,
        },
        None => default,
    }
}

/// The pass in which a symbol's graphics are drawn.
#[derive(Clone, Copy, PartialEq, Eq, Structural, Debug)]
pub enum GraphicPass {
    Background,
    Foreground,
}

/// Whether a graphic is filled in a pass, as a value.
pub open spec fn filled_in(node: crate::sexp::Sexp, pass: GraphicPass) -> bool {
    let kind = match node.first("fill"@) {
        Some(fill) => fill.first_text("type"@),
        None => None,
    };
    ||| kind == Some("background"@) && pass == GraphicPass::Background
    ||| kind == Some("outline"@) && pass == GraphicPass::Foreground
}

/// Whether a graphic is filled in a pass.
pub fn graphic_fill_in_pass(node: &Node, pass: GraphicPass) -> (r: bool)
    ensures
        r == filled_in(node@, pass),
{
    let kind: Option<&str> = match node.find("fill") {
        Some(fill) => fill.find_str("type"),
        None => None,
    };
    match pass {
        GraphicPass::Background => is_text(kind, "background"),
        GraphicPass::Foreground => is_text(kind, "outline"),
    }
}

/// The points of a line, from the first `n` of its `xy` parts.
pub open spec fn points_upto(parts: Seq<crate::sexp::Sexp>, n: nat) -> Seq<Point>
    decreases n,
{
    if n == 0 {
        Seq::empty()
    } else {
        let before = points_upto(parts, (n - 1) as nat);
        match parts[n - 1].xy() {
            Some(point) => before.push(point),
            None => before,
        }
    }
}

/// The points of a line, as a value.
pub open spec fn points_of(node: crate::sexp::Sexp) -> Seq<Point> {
    match node.first("pts"@) {
        Some(points) => points_upto(points.tagged("xy"@), points.tagged("xy"@).len()),
        None => Seq::empty(),
    }
}

/// The points of a line.
pub fn points_from_pts(node: &Node) -> (r: Vec<Point>)
    ensures
        r@ == points_of(node@),
        node.wf() ==> forall|i: int|
            0 <= i < r@.len() ==> (#[trigger] r@[i]).wf() && r@[i].is_read(),
{
    let mut r: Vec<Point> = Vec::new();
    match node.find("pts") {
        Some(points) => {
            let parts = points.find_all("xy");
            let ghost all = points@.tagged("xy"@);
            let mut i: usize = 0;
            while i < parts.len()
                invariant
                    i <= parts@.len(),
                    crate::sexp::ref_sexps(parts@) == all,
                    node.wf() ==> forall|i: int| 0 <= i < parts@.len() ==> (#[trigger] parts@[i]).wf(),
                    r@ =~= points_upto(all, i as nat),
                    node.wf() ==> forall|i: int|
            0 <= i < r@.len() ==> (#[trigger] r@[i]).wf() && r@[i].is_read(),
                decreases parts@.len() - i,
            {
                assert(all[i as int] == parts@[i as int]@);
                match xy(parts[i]) {
                    Some(point) => {
                        r.push(point);
                    },
                    None => {},
                }
                i = i + 1;
            }
        },
        None => {},
    }
    r
}

/// The size of a sheet of paper in mils, wide side first, as a value.
pub open spec fn landscape_mils(paper: Seq<char>) -> (int, int) {
    if paper == "A0"@ {
        (46811, 33110)
    } else if paper == "A1"@ {
        (33110, 23386)
    } else if paper == "A2"@ {
        (23386, 16535)
    } else if paper == "A3"@ {
        (16535, 11693)
    } else if paper == "A5"@ {
        (8268, 5827)
    } else if paper == "USLetter"@ {
        (11000, 8500)
    } else if paper == "USLegal"@ {
        (14000, 8500)
    } else if paper == "USLedger"@ {
        (17000, 11000)
    } else {
        (11693, 8268)
    }
}

/// The width and height of the page in mils, as a value.
pub open spec fn page_mils(root: crate::sexp::Sexp) -> (int, int) {
    let paper = match root.first_text("paper"@) {
        Some(paper) => paper,
        None => "A4"@,
    };
    let (long, short) = landscape_mils(paper);
    let portrait = root.first("paper"@) matches Some(node) && node.part_text(2) == Some(
        "portrait"@,
    );
    if portrait {
        (short, long)
    } else {
        (long, short)
    }
}

/// The width and height of the page in mils: its size in millimetres, rounded to the mil.
pub fn paper_size(root: &Node) -> (r: (u32, u32))
    ensures
        (r.0 as int, r.1 as int) == page_mils(root@),
{
    let node = root.find("paper");
    let paper: &str = match root.find_str("paper") {
        Some(paper) => paper,
        None => "A4",
    };
    let (long, short): (u32, u32) = if same(paper, "A0") {
        (46811, 33110)
    } else if same(paper, "A1") {
        (33110, 23386)
    } else if same(paper, "A2") {
        (23386, 16535)
    } else if same(paper, "A3") {
        (16535, 11693)
    } else if same(paper, "A5") {
        (8268, 5827)
    } else if same(paper, "USLetter") {
        (11000, 8500)
    } else if same(paper, "USLegal") {
        (14000, 8500)
    } else if same(paper, "USLedger") {
        (17000, 11000)
    } else {
        (11693, 8268)
    };
    let portrait: bool = match node {
        Some(node) => is_text(node.get_str(2), "portrait"),
        None => false,
    };
    if portrait {
        (short, long)
    } else {
        (long, short)
    }
}

} // verus!
