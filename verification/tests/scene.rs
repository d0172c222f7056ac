use schematic_viewer::arcs::{arc_points, kicad_svg_arc};
use schematic_viewer::attachment::Placement;
use schematic_viewer::connectivity::{
    analyze_connectivity, Connections, ConnectivityDiagnostic, ConnectivityDiagnosticKind, Instance,
    Segment,
};
use schematic_viewer::document_drawing::{overlapping_object_uuids, SchematicScene};
use schematic_viewer::double::Double;
use schematic_viewer::geometry::{Bounds, Point};
use schematic_viewer::plane::{Query, Reply};
use schematic_viewer::primitives::Primitive;
use schematic_viewer::readers::{at_point, points_from_pts, symbol_reference};
use schematic_viewer::scene::{analyze_render_coverage, object_search_text, ColorRole, ObjectKind};
use schematic_viewer::scene_builder::{SceneBuilder, SceneObject};
use schematic_viewer::sexp::{Atom, Node};
use schematic_viewer::symbol_drawing::PinTextOptions;
use schematic_viewer::text_box::{text_anchor_pen_width, text_stroke_width};
use schematic_viewer::worksheet::page_size;

fn d(v: f64) -> Double {
    let bits = v.to_bits();
    let field = ((bits >> 52) & 0x7ff) as i64;
    let low = bits & 0xf_ffff_ffff_ffff;
    if field == 0 {
        assert_eq!(low, 0);
        return Double { negative: false, mantissa: 0, exponent: 0 };
    }
    Double { negative: v < 0.0, mantissa: low | (1 << 52), exponent: field - 1075 }
}

fn f(v: Double) -> f64 {
    let m = v.mantissa as f64 * 2f64.powi(v.exponent as i32);
    if v.negative {
        -m
    } else {
        m
    }
}

fn skip_space(bytes: &[u8], mut at: usize) -> usize {
    while at < bytes.len() && bytes[at].is_ascii_whitespace() {
        at += 1;
    }
    at
}

fn parse_at(source: &str, start: usize) -> (Node, usize, Vec<(usize, usize)>) {
    let bytes = source.as_bytes();
    let mut at = skip_space(bytes, start);
    if bytes[at] == b'(' {
        at = skip_space(bytes, at + 1);
        let mut items = Vec::new();
        let mut lists = Vec::new();
        while bytes[at] != b')' {
            let is_list = bytes[at] == b'(';
            let (node, end, _) = parse_at(source, at);
            if is_list {
                lists.push((at, end));
            }
            items.push(node);
            at = skip_space(bytes, end);
        }
        return (Node::List(items), at + 1, lists);
    }
    if bytes[at] == b'"' {
        let first = at + 1;
        let mut text = String::new();
        at = first;
        while bytes[at] != b'"' {
            if bytes[at] == b'\\' {
                at += 1;
            }
            let c = source[at..].chars().next().unwrap();
            text.push(c);
            at += c.len_utf8();
        }
        return (Node::Atom(Atom { text, number: None }), at + 1, Vec::new());
    }
    let first = at;
    while at < bytes.len() && !bytes[at].is_ascii_whitespace() && bytes[at] != b'(' && bytes[at] != b')' {
        at += 1;
    }
    let text = source[first..at].to_owned();
    let number = text.parse::<f64>().ok().map(d);
    (Node::Atom(Atom { text, number }), at, Vec::new())
}

fn parse(source: &str) -> Node {
    parse_at(source, 0).0
}

fn p(x: f64, y: f64) -> Point {
    Point { x: d(x), y: d(y) }
}

fn turned(degrees: f64) -> (f64, f64) {
    let quarter = (degrees / 90.0).rem_euclid(4.0);
    if quarter == 0.0 {
        (1.0, 0.0)
    } else if quarter == 1.0 {
        (0.0, 1.0)
    } else if quarter == 2.0 {
        (-1.0, 0.0)
    } else if quarter == 3.0 {
        (0.0, -1.0)
    } else {
        (degrees.to_radians().cos(), degrees.to_radians().sin())
    }
}

fn plane(query: Query) -> Reply {
    let first = match query {
        Query::Direction(degrees) => {
            let radians = f(degrees).to_radians();
            p(radians.cos(), radians.sin())
        }
        Query::Placed(point, at) => {
            let mut x = f(point.x);
            let mut y = -f(point.y);
            if at.mirror_x {
                y = -y;
            }
            if at.mirror_y {
                x = -x;
            }
            let (cos, sin) = turned(-f(at.rotation));
            p(f(at.origin.x) + x * cos - y * sin, f(at.origin.y) + x * sin + y * cos)
        }
        Query::Length(v) => p(f(v.x).hypot(f(v.y)), 0.0),
        Query::Angle(v) => p(f(v.y).atan2(f(v.x)), 0.0),
        Query::Heading(radians) => p(f(radians).cos(), f(radians).sin()),
        Query::Wrapped(radians) => p(f(radians).rem_euclid(std::f64::consts::TAU), 0.0),
    };
    Reply { first }
}

fn near(a: Point, b: Point) -> bool {
    (f(a.x) - f(b.x)).hypot(f(a.y) - f(b.y)) <= 0.01
}

fn on(point: Point, piece: Segment) -> bool {
    let (x, y) = (f(point.x), f(point.y));
    let (x1, y1) = (f(piece.start.x), f(piece.start.y));
    let (x2, y2) = (f(piece.end.x), f(piece.end.y));
    let (dx, dy) = (x2 - x1, y2 - y1);
    let length = dx * dx + dy * dy;
    let t = if length == 0.0 { 0.0 } else { (((x - x1) * dx + (y - y1) * dy) / length).clamp(0.0, 1.0) };
    (x - x1 - t * dx).hypot(y - y1 - t * dy) <= 0.01
}

fn segments(root: &Node, tag: &str) -> Vec<Segment> {
    root.find_all(tag)
        .into_iter()
        .map(|wire| {
            let ends = points_from_pts(wire);
            Segment { start: ends[0], end: ends[1] }
        })
        .collect()
}

fn connectivity(root: &Node) -> Vec<ConnectivityDiagnostic> {
    let wires = segments(root, "wire");
    let mut t_junctions = Vec::new();
    for (i, wire) in wires.iter().enumerate() {
        for end in [wire.start, wire.end] {
            for (j, other) in wires.iter().enumerate() {
                if i != j && on(end, *other) && !near(end, other.start) && !near(end, other.end) {
                    t_junctions.push(end);
                }
            }
        }
    }
    let labels = root.find_all("label").into_iter().filter_map(at_point).collect();
    let instances = root
        .find_all("symbol")
        .into_iter()
        .map(|symbol| Instance {
            reference: symbol_reference(symbol).unwrap().to_owned(),
            point: at_point(symbol).unwrap(),
            pins: Vec::new(),
        })
        .collect();
    let c = Connections { wires, buses: segments(root, "bus"), labels, instances, t_junctions };
    analyze_connectivity(root, &c, near, on)
}

#[test]
fn render_coverage_reports_unknown_visual_constructs_but_not_metadata() {
    let root = parse(
        r#"(kicad_sch
                (version 20250101)
                (uuid "root")
                (lib_symbols)
                (wire (pts (xy 0 0) (xy 1 0)) (uuid "wire"))
                (text_box "unsupported-a")
                (text_box "unsupported-b")
                (image (uuid "image")))"#,
    );

    let coverage = analyze_render_coverage(&root);

    let found: Vec<(&str, usize)> =
        coverage.unsupported.iter().map(|u| (u.kind.as_str(), u.count)).collect();
    assert_eq!(found, vec![("image", 1), ("text_box", 2)]);
    assert!(!coverage.is_complete());
}

#[test]
fn connectivity_reports_a_missing_t_junction() {
    let root = parse(
        r#"(kicad_sch
                (wire (pts (xy 0 0) (xy 10 0)) (uuid "wire-a"))
                (wire (pts (xy 5 0) (xy 5 5)) (uuid "wire-b")))"#,
    );

    let diagnostics = connectivity(&root);

    assert!(diagnostics.iter().any(|diagnostic| {
        diagnostic.kind == ConnectivityDiagnosticKind::MissingJunction
            && diagnostic.point == p(5.0, 0.0)
    }));
}

#[test]
fn connectivity_accepts_explicit_anchors_and_junctions() {
    let root = parse(
        r#"(kicad_sch
                (wire (pts (xy 0 0) (xy 10 0)) (uuid "wire-a"))
                (wire (pts (xy 5 0) (xy 5 5)) (uuid "wire-b"))
                (label "START" (at 0 0 0) (uuid "label-a"))
                (label "END_A" (at 10 0 0) (uuid "label-b"))
                (label "END_B" (at 5 5 0) (uuid "label-c"))
                (junction (at 5 0) (uuid "junction-a")))"#,
    );

    assert!(connectivity(&root).is_empty());
}

#[test]
fn connectivity_rejects_a_wired_no_connect_marker() {
    let root = parse(
        r#"(kicad_sch
                (wire (pts (xy 0 0) (xy 10 0)) (uuid "wire-a"))
                (label "START" (at 0 0 0) (uuid "label-a"))
                (no_connect (at 10 0) (uuid "nc-a")))"#,
    );

    let diagnostics = connectivity(&root);

    assert!(diagnostics.iter().any(|diagnostic| {
        diagnostic.kind == ConnectivityDiagnosticKind::ConnectedNoConnect
            && diagnostic.point == p(10.0, 0.0)
    }));
    assert_eq!(
        diagnostics[0].message,
        "No-connect marker at 10.000, 0.000 mm is attached to a wire"
    );
}

#[test]
fn connectivity_rejects_duplicate_sheet_names_and_pins() {
    let root = parse(
        r#"(kicad_sch
                (sheet
                    (at 10 10) (size 20 10) (uuid "sheet-a")
                    (property "Sheetname" "Control" (at 10 9 0))
                    (property "Sheetfile" "a.kicad_sch" (at 10 21 0))
                    (pin "READY" input (at 10 12 180) (uuid "pin-a"))
                    (pin "READY" output (at 30 14 0) (uuid "pin-b")))
                (sheet
                    (at 50 10) (size 20 10) (uuid "sheet-b")
                    (property "Sheetname" "Control" (at 50 9 0))
                    (property "Sheetfile" "b.kicad_sch" (at 50 21 0))))"#,
    );

    let diagnostics = connectivity(&root);

    assert!(diagnostics
        .iter()
        .any(|diagnostic| diagnostic.kind == ConnectivityDiagnosticKind::DuplicateSheetName));
    assert!(diagnostics
        .iter()
        .any(|diagnostic| diagnostic.kind == ConnectivityDiagnosticKind::DuplicateSheetPin));
}

#[test]
fn connectivity_reports_duplicate_annotated_references() {
    let root = parse(
        r#"(kicad_sch
                (symbol (lib_id "Device:R") (at 10 10 0)
                    (property "Reference" "R1") (uuid "symbol-a"))
                (symbol (lib_id "Device:R") (at 20 20 0)
                    (property "Reference" "R1") (uuid "symbol-b"))
                (symbol (lib_id "Device:R") (at 30 30 0)
                    (property "Reference" "R?") (uuid "symbol-c")))"#,
    );

    let diagnostics = connectivity(&root);

    assert_eq!(
        diagnostics
            .iter()
            .filter(|diagnostic| diagnostic.kind == ConnectivityDiagnosticKind::DuplicateReference)
            .count(),
        1
    );
}

#[test]
fn connectivity_checks_that_bus_entries_bridge_bus_and_wire() {
    let root = parse(
        r#"(kicad_sch
                (bus (pts (xy 0 0) (xy 10 0)) (uuid "bus-a"))
                (bus_entry (at 5 0) (size 2.54 2.54) (uuid "entry-ok"))
                (wire (pts (xy 7.54 2.54) (xy 10 2.54)) (uuid "wire-a"))
                (bus_entry (at 20 20) (size 2.54 2.54) (uuid "entry-bad")))"#,
    );

    let diagnostics = connectivity(&root);

    assert_eq!(
        diagnostics
            .iter()
            .filter(|diagnostic| diagnostic.kind == ConnectivityDiagnosticKind::UnconnectedBusEntry)
            .count(),
        1
    );
    assert!(diagnostics
        .iter()
        .any(|diagnostic| diagnostic.kind == ConnectivityDiagnosticKind::DanglingWire
            && diagnostic.point == p(10.0, 2.54)));
}

#[test]
fn render_coverage_is_complete_for_supported_document() {
    let root = parse(
        r#"(kicad_sch
                (version 20250101)
                (uuid "root")
                (paper "A4")
                (symbol_instances)
                (junction (at 1 1) (uuid "junction")))"#,
    );

    assert!(analyze_render_coverage(&root).is_complete());
}

#[test]
fn object_search_text_includes_uuid_library_and_symbol_properties() {
    let node = parse(
        r#"(symbol
                (lib_id "Device:R")
                (at 10 10 0)
                (property "Reference" "R42" (at 10 8 0))
                (property "Value" "4.7k" (at 10 12 0))
                (uuid "searchable-symbol"))"#,
    );

    let search = object_search_text(&node, "R42", "searchable-symbol");

    assert!(search.contains("R42"));
    assert!(search.contains("4.7k"));
    assert!(search.contains("Device:R"));
    assert!(search.contains("searchable-symbol"));
}

#[test]
fn direct_scene_preserves_uuid_for_hit_testing() {
    let source = r#"(kicad_sch
  (version 20250101)
  (generator "eeschema")
  (paper "A4")
  (wire (pts (xy 20 30) (xy 40 30)) (stroke (width 0) (type default))
    (uuid "wire-uuid")))"#;
    let root = parse(source);

    let scene = SchematicScene::from_root(plane, &root, source, Some("scene.kicad_sch"), None);
    let object = scene.hit_test(p(30.0, 30.0), d(0.2)).unwrap();

    assert_eq!(object.uuid, "wire-uuid");
    assert_eq!(object.kind, ObjectKind::Wire);
    assert!(scene.hit_test(p(30.0, 60.0), d(0.2)).is_none());
}

#[test]
fn paper_orientation_is_respected() {
    let landscape = parse(r#"(kicad_sch (paper "A4"))"#);
    let portrait = parse(r#"(kicad_sch (paper "A4" portrait))"#);
    let wide = page_size(&landscape);
    assert_eq!((f(wide.0), f(wide.1)), (297.0022, 210.00719999999998));
    let tall = page_size(&portrait);
    assert_eq!((f(tall.0), f(tall.1)), (210.00719999999998, 297.0022));
}

fn text_position(primitive: Option<&Primitive>) -> Point {
    match primitive {
        Some(Primitive::Text(run)) => run.position,
        _ => panic!("the label did not produce text"),
    }
}

#[test]
fn local_label_uses_kicad_connection_line_offset() {
    let root = parse(r#"(kicad_sch (label "HB_IN" (at 10 20 0)))"#);
    let mut builder = SceneBuilder::new();
    builder.draw_label(plane, root.find("label").unwrap(), false);
    assert_eq!(text_position(builder.primitives.last()), p(10.0, 18.9077));
}

#[test]
fn global_label_uses_kicad_overbar_centering_offset() {
    let root = parse(r#"(kicad_sch (global_label "PACK_N" (at 10 20 0)))"#);
    let mut builder = SceneBuilder::new();
    builder.draw_label(plane, root.find("global_label").unwrap(), true);
    assert_eq!(text_position(builder.primitives.last()), p(11.4288, 20.0908));
}

#[test]
fn global_label_frame_uses_kicad_integer_margins() {
    let root = parse(r#"(kicad_sch (global_label "CELL2" (at 10 20 0)))"#);
    let mut builder = SceneBuilder::new();
    builder.draw_label(plane, root.find("global_label").unwrap(), true);

    let Primitive::Polyline { points, closed, .. } = builder.primitives.first().unwrap() else {
        panic!("global label did not produce a frame");
    };
    assert!(*closed);
    assert_eq!(points[1], p(11.1113, 21.2704));
    assert_eq!(f(points[3].y), 20.0);
    assert_eq!(f(points[4].y), 18.7296);
}

#[test]
fn italic_effect_is_preserved_in_semantic_text() {
    let root = parse(
        r#"(kicad_sch (text "italic" (at 10 20 0)
                (effects (font (size 1.27 1.27) (italic yes)))))"#,
    );
    let mut builder = SceneBuilder::new();
    builder.draw_top_level_text(plane, root.find("text").unwrap());
    assert!(matches!(builder.primitives.first(), Some(Primitive::Text(run)) if run.italic));
}

#[test]
fn reversed_local_label_stays_above_the_connection_line() {
    let root = parse(r#"(kicad_sch (label "HB_IN" (at 10 20 180)))"#);
    let mut builder = SceneBuilder::new();
    builder.draw_label(plane, root.find("label").unwrap(), false);

    let Primitive::Text(run) = builder.primitives.last().unwrap() else {
        panic!("local label did not produce text");
    };
    assert_eq!(run.position, p(10.0, 18.9077));
    assert_eq!(f(run.rotation_deg), 0.0);
}

fn object(uuid: &str, min_x: f64, max_x: f64) -> SceneObject {
    let bounds = Bounds { min_x: d(min_x), min_y: d(0.0), max_x: d(max_x), max_y: d(10.0) };
    SceneObject {
        uuid: uuid.to_owned(),
        kind: ObjectKind::Symbol,
        item_type: 70,
        label: uuid.to_owned(),
        search_text: uuid.to_owned(),
        properties: Vec::new(),
        bounds,
        index_bounds: bounds,
        initial_index_bounds: bounds,
        first: 0,
        end: 0,
    }
}

#[test]
fn overlap_redraw_marks_both_symbols_but_not_a_neighbour() {
    let objects = vec![
        object("left", 0.0, 5.0),
        object("middle", 4.0, 8.0),
        object("right", 9.0, 12.0),
    ];

    let mut overlapping = overlapping_object_uuids(&objects, 0);
    overlapping.sort();
    overlapping.dedup();
    assert_eq!(overlapping, ["left", "middle"]);
}

#[test]
fn automatic_label_pen_uses_distinct_plot_and_anchor_widths() {
    let root = parse(r#"(label "L" (effects (font (size 1.27 1.27))))"#);

    assert_eq!(f(text_stroke_width(&root, d(1.27))), 0.1524);
    assert_eq!(f(text_anchor_pen_width(&root, d(1.27))), 1.27 / 8.0);
}

#[test]
fn pin_name_offset_defaults_to_half_a_millimetre() {
    let symbol = parse(r#"(symbol "Device:R")"#);
    assert_eq!(f(PinTextOptions::from_symbol(&symbol).name_offset), 0.508);
}

#[test]
fn root_worksheet_counts_direct_hierarchy_pages() {
    let root = parse(
        r#"(kicad_sch (paper "A4")
                (sheet (at 1 1) (size 2 2))
                (sheet (at 4 4) (size 2 2)))"#,
    );
    let mut builder = SceneBuilder::new();
    builder.draw_page(&root, Some("root.kicad_sch"));

    assert!(builder
        .primitives
        .iter()
        .any(|primitive| matches!(primitive, Primitive::Text(run) if run.text == "Id: 1/3")));
}

#[test]
fn worksheet_zone_ticks_are_between_centered_row_labels() {
    let root = parse(r#"(kicad_sch (paper "A4"))"#);
    let mut builder = SceneBuilder::new();
    builder.draw_page(&root, Some("root.kicad_sch"));

    assert!(builder.primitives.iter().any(|primitive| matches!(
        primitive,
        Primitive::Line { from, to, .. } if *from == p(10.0, 60.0) && *to == p(12.0, 60.0)
    )));
    assert!(!builder.primitives.iter().any(|primitive| matches!(
        primitive,
        Primitive::Line { from, to, .. } if *from == p(10.0, 35.0) && *to == p(12.0, 35.0)
    )));
    assert!(builder.primitives.iter().any(|primitive| matches!(
        primitive,
        Primitive::Text(run) if run.position == p(11.0, 35.0) && run.text == "A"
    )));
}

#[test]
fn unpositioned_sheet_fields_match_kicad_origin_fallback() {
    let root = parse(
        r#"(kicad_sch
                (sheet (at 10 20) (size 30 40)
                  (property "Sheetname" "POWER")
                  (property "Sheetfile" "power.kicad_sch")))"#,
    );
    let mut builder = SceneBuilder::new();
    builder.draw_sheet(plane, root.find("sheet").unwrap());

    assert!(builder.primitives.iter().any(|primitive| matches!(
        primitive,
        Primitive::Text(run) if run.position == p(0.0, 0.0)
            && run.text == "POWER"
            && run.role == ColorRole::PinName
    )));
    assert!(builder.primitives.iter().any(|primitive| matches!(
        primitive,
        Primitive::Text(run) if run.position == p(0.0, 0.0)
            && run.text == "File: power.kicad_sch"
            && run.role == ColorRole::SheetFile
    )));
    assert_eq!(
        connectivity(&root)
            .iter()
            .filter(|diagnostic| {
                diagnostic.kind == ConnectivityDiagnosticKind::UnpositionedSheetField
            })
            .count(),
        2
    );
}

#[test]
fn pin_numbers_stay_above_the_readable_axis_on_both_sides() {
    let at = Placement { origin: p(0.0, 0.0), rotation: d(0.0), mirror_x: false, mirror_y: false };
    let options = PinTextOptions { name_offset: d(0.508), show_names: false, show_numbers: true };
    let mut positions = Vec::new();
    for rotation in [0, 180] {
        let pin = parse(&format!(
            r#"(pin unspecified line (at 0 0 {rotation}) (length 2.54)
                    (name "~") (number "1" (effects (font (size 1.27 1.27)))))"#
        ));
        let mut builder = SceneBuilder::new();
        builder.draw_library_pin(plane, &pin, at, options);
        let position = builder
            .primitives
            .iter()
            .find_map(|primitive| match primitive {
                Primitive::Text(run) if run.role == ColorRole::PinNumber => Some(run.position),
                _ => None,
            })
            .unwrap();
        positions.push(position);
    }

    let expected_offset = 1.0986;
    assert!((f(positions[0].y) + expected_offset).abs() < 1e-12);
    assert!((f(positions[1].y) + expected_offset).abs() < 1e-12);
}

#[test]
fn arc_interpolation_contains_endpoints() {
    let start = p(1.0, 0.0);
    let mid = p(0.0, 1.0);
    let end = p(-1.0, 0.0);
    let points = arc_points(plane, start, mid, end, 8);
    assert_eq!(points.first(), Some(&start));
    let last = points.last().unwrap();
    assert!((f(last.x) - f(end.x)).abs() < 1e-9);
    assert!((f(last.y) - f(end.y)).abs() < 1e-9);
    assert_eq!(points.len(), 9);
}

#[test]
fn matches_kicad_inductor_arc_serialization() {
    let arc = kicad_svg_arc(plane, p(98.30, 96.53), p(97.29, 95.50), p(96.27, 96.51)).unwrap();

    assert_eq!(f(arc.from.x), 98.31);
    assert_eq!(f(arc.from.y), 96.5301);
    assert_eq!(f(arc.to.x), 96.27);
    assert_eq!(f(arc.to.y), 96.51);
    assert_eq!(f(arc.radius), 1.02);
    assert!(arc.large_arc);
    assert!(!arc.sweep);
}
