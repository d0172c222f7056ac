use schematic_viewer::attachment::{connected_wire_moves, Placement, WireItem};
use schematic_viewer::connectivity::Segment;
use schematic_viewer::double::Double;
use schematic_viewer::editor_model::{kicad_lock_path, summarize_external_change, ItemText};
use schematic_viewer::edit_control::Transform;
use schematic_viewer::geometry::{box_selects_bounds, drag_delta_mm, format_coord, snap_point, Bounds, Point};
use schematic_viewer::group_edit::{move_items_with_connected_wires, transform_items};
use schematic_viewer::sexp::{Atom, Node};
use schematic_viewer::source_edit::{
    duplicate_symbol_block, find_item, mirror_symbol_source, move_item_source, move_symbol_source,
    move_wire_endpoints_source, rotate_item_source, rotate_symbol_source, Block, Edit, EditError,
};
use schematic_viewer::text::find_indent;

fn d(v: f64) -> Double {
    let bits = v.to_bits();
    let field = ((bits >> 52) & 0x7ff) as i64;
    let low = bits & 0xf_ffff_ffff_ffff;
    if field == 0 {
        assert_eq!(low, 0);
        return Double { negative: false, mantissa: 0, exponent: 0 };
    }
    Double { negative: v < 0.0, mantissa: low | (1 << 52), exponent: field - 1075 }
}

fn f(v: Double) -> f64 {
    let m = v.mantissa as f64 * 2f64.powi(v.exponent as i32);
    if v.negative {
        -m
    } else {
        m
    }
}

fn skip_space(bytes: &[u8], mut at: usize) -> usize {
    while at < bytes.len() && bytes[at].is_ascii_whitespace() {
        at += 1;
    }
    at
}

fn parse_at(source: &str, start: usize) -> (Node, usize, Vec<(usize, usize)>) {
    let bytes = source.as_bytes();
    let mut at = skip_space(bytes, start);
    if bytes[at] == b'(' {
        at = skip_space(bytes, at + 1);
        let mut items = Vec::new();
        let mut lists = Vec::new();
        while bytes[at] != b')' {
            let is_list = bytes[at] == b'(';
            let (node, end, _) = parse_at(source, at);
            if is_list {
                lists.push((at, end));
            }
            items.push(node);
            at = skip_space(bytes, end);
        }
        return (Node::List(items), at + 1, lists);
    }
    if bytes[at] == b'"' {
        let first = at + 1;
        let mut text = String::new();
        at = first;
        while bytes[at] != b'"' {
            if bytes[at] == b'\\' {
                at += 1;
            }
            let c = source[at..].chars().next().unwrap();
            text.push(c);
            at += c.len_utf8();
        }
        return (Node::Atom(Atom { text, number: None }), at + 1, Vec::new());
    }
    let first = at;
    while at < bytes.len() && !bytes[at].is_ascii_whitespace() && bytes[at] != b'(' && bytes[at] != b')' {
        at += 1;
    }
    let text = source[first..at].to_owned();
    let number = text.parse::<f64>().ok().map(d);
    (Node::Atom(Atom { text, number }), at, Vec::new())
}

fn parse(source: &str) -> Node {
    parse_at(source, 0).0
}

fn block(source: &str, around: usize, start: usize, end: usize) -> Block {
    let (node, _, lists) = parse_at(source, start);
    let indent = find_indent(&source[around..start]);
    let children = lists.into_iter().map(|(s, e)| block(source, start, s, e)).collect();
    Block { start, end, indent, node: Some(node), children }
}

fn items(source: &str) -> Vec<Block> {
    let (_, _, lists) = parse_at(source, 0);
    lists.into_iter().map(|(s, e)| block(source, 0, s, e)).collect()
}

fn apply(source: &str, mut edits: Vec<Edit>) -> String {
    edits.sort_by_key(|edit| edit.start);
    let mut text = source.to_owned();
    for edit in edits.into_iter().rev() {
        text.replace_range(edit.start..edit.end, &edit.replacement);
    }
    text
}

fn p(x: f64, y: f64) -> Point {
    Point { x: d(x), y: d(y) }
}

fn near(a: Point, b: Point) -> bool {
    (f(a.x) - f(b.x)).hypot(f(a.y) - f(b.y)) <= 0.01
}

fn place(point: Point, at: Placement) -> Point {
    assert_eq!(f(at.rotation), 0.0);
    p(f(at.origin.x) + f(point.x), f(at.origin.y) - f(point.y))
}

fn wires(root: &Node) -> Vec<WireItem> {
    root.find_all("wire")
        .into_iter()
        .map(|wire| {
            let ends = schematic_viewer::readers::points_from_pts(wire);
            WireItem {
                uuid: wire.find_str("uuid").map(str::to_owned),
                segment: Segment { start: ends[0], end: ends[1] },
            }
        })
        .collect()
}

fn move_with_wires(source: &str, selected: &[&str], dx: f64, dy: f64) -> (String, Vec<String>) {
    let root = parse(source);
    let names: Vec<String> = selected.iter().map(|name| name.to_string()).collect();
    let moves = connected_wire_moves(&root, &wires(&root), &names, near, place);
    let group = move_items_with_connected_wires(&items(source), &names, &moves, d(dx), d(dy));
    let group = group.ok().unwrap();
    (apply(source, group.edits), group.changed)
}

#[test]
fn moving_a_symbol_is_targeted_and_moves_visible_fields() {
    let source = r#"(kicad_sch
  (lib_symbols (symbol "Device:R" (uuid "library-copy")))
  (symbol
    (lib_id "Device:R")
    (at 10 20 90)
    (uuid "placed")
    (property "Reference" "R1" (at 11 18 90))
    (property "Value" "10k" (at 11 22 90)))
  (symbol (lib_id "Device:C") (at 40 50 0) (uuid "other")))"#;

    let edits = move_symbol_source(&items(source), "placed", d(1.27), d(-2.54)).unwrap();
    let moved = apply(source, edits);

    assert!(moved.contains("(at 11.27 17.46 90)"));
    assert!(moved.contains("(at 12.27 15.46 90)"));
    assert!(moved.contains("(at 12.27 19.46 90)"));
    assert!(moved.contains("(at 40 50 0) (uuid \"other\")"));
    assert!(moved.contains("(uuid \"library-copy\")"));
}

#[test]
fn moving_an_unknown_symbol_is_rejected() {
    let source = r#"(kicad_sch (symbol (at 10 20) (uuid "known")))"#;

    let error = match move_symbol_source(&items(source), "missing", d(1.27), d(0.0)) {
        Ok(_) => panic!("an unknown symbol was moved"),
        Err(error) => error,
    };

    assert!(error.describe("placed symbol", "missing").contains("was not found"));
    assert_eq!(source, r#"(kicad_sch (symbol (at 10 20) (uuid "known")))"#);
}

#[test]
fn moving_wire_translates_every_endpoint_and_preserves_other_items() {
    let source = r#"(kicad_sch
  (wire (pts (xy 10 20) (xy 30 40)) (stroke (width 0) (type default))
    (uuid "wire-a"))
  (junction (at 30 40) (uuid "junction-b")))"#;

    let edits = move_item_source(&items(source), "wire-a", d(1.27), d(-2.54)).expect("wire moves");
    let moved = apply(source, edits);

    assert!(moved.contains("(xy 11.27 17.46) (xy 31.27 37.46)"));
    assert!(moved.contains("(junction (at 30 40)"));
}

#[test]
fn moving_symbol_stretches_only_its_connected_wire_endpoint() {
    let source = r#"(kicad_sch
  (lib_symbols
    (symbol "Device:R"
      (symbol "R_1_1"
        (pin passive line (at 0 0 0) (length 2.54) (name "1") (number "1")))))
  (symbol (lib_id "Device:R") (at 10 10 0) (unit 1)
    (property "Reference" "R1" (at 10 8 0)) (uuid "symbol-a"))
  (wire (pts (xy 10 10) (xy 30 10)) (uuid "wire-a")))"#;

    let (edited, changed) = move_with_wires(source, &["symbol-a"], 5.0, 2.0);
    let wire = wires(&parse(&edited)).remove(0).segment;

    assert_eq!((f(wire.start.x), f(wire.start.y)), (15.0, 12.0));
    assert_eq!((f(wire.end.x), f(wire.end.y)), (30.0, 10.0));
    assert_eq!(changed, ["symbol-a", "wire-a"]);
}

#[test]
fn wire_attached_to_two_moved_symbols_translates_without_deforming() {
    let source = r#"(kicad_sch
  (lib_symbols
    (symbol "Device:R"
      (symbol "R_1_1"
        (pin passive line (at 0 0 0) (length 2.54) (name "1") (number "1")))))
  (symbol (lib_id "Device:R") (at 10 10 0) (unit 1) (uuid "symbol-a"))
  (symbol (lib_id "Device:R") (at 30 10 0) (unit 1) (uuid "symbol-b"))
  (wire (pts (xy 10 10) (xy 30 10)) (uuid "wire-a")))"#;

    let (edited, _) = move_with_wires(source, &["symbol-a", "symbol-b"], 0.0, 5.0);
    let wire = wires(&parse(&edited)).remove(0).segment;

    assert_eq!((f(wire.start.x), f(wire.start.y)), (10.0, 15.0));
    assert_eq!((f(wire.end.x), f(wire.end.y)), (30.0, 15.0));
}

#[test]
fn connected_wire_detection_ignores_pins_from_another_symbol_unit() {
    let source = r#"(kicad_sch
  (lib_symbols
    (symbol "Multi:Part"
      (symbol "Part_1_1"
        (pin passive line (at 0 0 0) (length 2.54) (name "1") (number "1")))
      (symbol "Part_2_1"
        (pin passive line (at 50 0 0) (length 2.54) (name "2") (number "2")))))
  (symbol (lib_id "Multi:Part") (at 10 10 0) (unit 1) (uuid "symbol-a"))
  (wire (pts (xy 60 10) (xy 80 10)) (uuid "wire-other-unit")))"#;
    let root = parse(source);

    let connected =
        connected_wire_moves(&root, &wires(&root), &vec!["symbol-a".to_owned()], near, place);

    assert!(connected.is_empty());
}

#[test]
fn moving_label_translates_anchor_without_changing_text() {
    let source = r#"(kicad_sch
  (label "PACK+" (at 10 20 90) (effects (font (size 1.27 1.27)))
    (uuid "label-a")))"#;

    let edits = move_item_source(&items(source), "label-a", d(-1.27), d(2.54)).expect("label moves");
    let moved = apply(source, edits);

    assert!(moved.contains("(label \"PACK+\" (at 8.73 22.54 90)"));
}

#[test]
fn rotating_symbol_changes_only_placed_rotation() {
    let source = r#"(kicad_sch
  (symbol (lib_id "Device:R") (at 10 20 270)
    (property "Reference" "R1" (at 8 20 0))
    (uuid "symbol-a"))
  (text "keep" (at 1 2 0) (uuid "text-b")))"#;

    let edits = rotate_symbol_source(&items(source), "symbol-a", d(90.0)).expect("symbol rotates");
    let rotated = apply(source, edits);

    assert!(rotated.contains("(symbol (lib_id \"Device:R\") (at 10 20 0)"));
    assert!(rotated.contains("(property \"Reference\" \"R1\" (at 8 20 0))"));
    assert!(rotated.contains("(text \"keep\" (at 1 2 0)"));
}

#[test]
fn graphic_text_drags_no_wire_along() {
    let source = r#"(kicad_sch
  (text "note" (at 10 10 0) (uuid "text-a"))
  (image (at 30 10) (uuid "image-a"))
  (no_connect (at 30 10) (uuid "mark-a"))
  (netclass_flag "fast" (at 10 10 0) (uuid "flag-a"))
  (wire (pts (xy 10 10) (xy 30 10)) (uuid "wire-a")))"#;
    let root = parse(source);
    let follow = |uuid: &str| {
        connected_wire_moves(&root, &wires(&root), &vec![uuid.to_owned()], near, place)
    };
    assert!(follow("text-a").is_empty());
    assert!(follow("image-a").is_empty());
    let moves = follow("mark-a");
    assert_eq!(moves.len(), 1);
    assert!(!moves[0].move_start && moves[0].move_end);
    let moves = follow("flag-a");
    assert_eq!(moves.len(), 1);
    assert!(moves[0].move_start && !moves[0].move_end);
}

#[test]
fn moving_an_item_back_restores_its_text() {
    let source = r#"(kicad_sch
  (label "A" (at 12.7 -3.0001 90) (uuid "label-a"))
  (wire (pts (xy 0.1 0.2) (xy 30 -0.0007)) (uuid "wire-a")))"#;
    for uuid in ["label-a", "wire-a"] {
        let there = move_item_source(&items(source), uuid, d(0.1), d(-1234.5678)).unwrap();
        let moved = apply(source, there);
        assert_ne!(moved, source);
        let back = move_item_source(&items(&moved), uuid, d(-0.1), d(1234.5678)).unwrap();
        assert_eq!(apply(&moved, back), source);
    }
}

#[test]
fn four_quarter_turns_restore_an_item() {
    let source = r#"(kicad_sch
  (symbol (lib_id "Device:R") (at 10 20 12.3456) (uuid "symbol-a"))
  (symbol (lib_id "Device:C") (at 10 20 270) (uuid "symbol-b"))
  (bus_entry (at 1 2) (size 2.54 -1.27) (uuid "entry-a")))"#;
    for uuid in ["symbol-a", "symbol-b", "entry-a"] {
        let mut text = source.to_owned();
        for turn in 0..4 {
            let edits = rotate_item_source(&items(&text), uuid).unwrap();
            text = apply(&text, edits);
            assert_eq!(text == source, turn == 3);
        }
    }
}

#[test]
fn rotating_bus_entry_changes_only_its_size_vector() {
    let source = r#"(kicad_sch
  (bus_entry (at 10 20) (size 2.54 2.54)
    (stroke (width 0) (type default)) (uuid "entry-a"))
  (wire (pts (xy 1 2) (xy 3 4)) (uuid "wire-b")))"#;

    let edits = rotate_item_source(&items(source), "entry-a").expect("bus entry rotates");
    let rotated = apply(source, edits);

    assert!(rotated.contains("(bus_entry (at 10 20) (size -2.54 2.54)"));
    assert!(rotated.contains("(wire (pts (xy 1 2) (xy 3 4))"));
}

#[test]
fn mirror_symbol_adds_changes_and_removes_axis_targetedly() {
    let source = r#"(kicad_sch
  (symbol (lib_id "Device:R") (at 10 20 0)
    (property "Reference" "R1" (at 8 20 0))
    (uuid "symbol-a")))"#;

    let edits = mirror_symbol_source(&items(source), "symbol-a", "x").expect("mirror is added");
    let mirrored_x = apply(source, edits);
    assert!(mirrored_x.contains("(at 10 20 0)\n    (mirror x)"));
    let edits = mirror_symbol_source(&items(&mirrored_x), "symbol-a", "y").expect("axis changes");
    let mirrored_y = apply(&mirrored_x, edits);
    assert!(mirrored_y.contains("(mirror y)"));
    assert!(!mirrored_y.contains("(mirror x)"));
    let edits = mirror_symbol_source(&items(&mirrored_y), "symbol-a", "y").expect("axis toggles off");
    let unmirrored = apply(&mirrored_y, edits);
    assert!(!unmirrored.contains("(mirror"));
    assert!(unmirrored.contains("(property \"Reference\" \"R1\""));
}

#[test]
fn duplicate_symbol_gets_fresh_uuid_unannotated_reference_and_offset() {
    let source = r#"(kicad_sch
  (symbol (lib_id "Device:R") (at 10 20 0)
    (property "Reference" "R17" (at 8 20 0))
    (property "Value" "10k" (at 12 20 0))
    (uuid "symbol-a")
    (instances (project "demo" (path "/root" (reference "R17") (unit 1))))))"#;
    let uuid = "symbol-b";

    let moved = apply(
        source,
        move_symbol_source(&items(source), "symbol-a", d(2.54), d(1.27)).expect("symbol moves"),
    );
    let blocks = items(&moved);
    let symbol = &blocks[find_item(&blocks, "symbol-a").unwrap()];
    let text = &moved[symbol.start..symbol.end];
    let edits = duplicate_symbol_block(symbol, text, uuid).expect("symbol duplicates");
    let duplicate = apply(text, edits);

    assert!(duplicate.contains("(at 12.54 21.27 0)"));
    assert!(duplicate.contains("(property \"Reference\" \"R?\""));
    assert!(duplicate.contains("(reference \"R?\")"));
    assert!(duplicate.contains("(property \"Value\" \"10k\""));
    assert!(duplicate.contains(&format!("(uuid \"{uuid}\")")));
    assert_ne!(uuid, "symbol-a");
}

#[test]
fn faults_of_an_edit_are_named() {
    let source = r#"(kicad_sch
  (symbol (lib_id "Device:R") (uuid "no-place"))
  (junction (at 1 2) (uuid "round"))
  (bus_entry (at 1 2) (uuid "no-size"))
  (wire (pts (xy 1 2)) (uuid "short"))
  (label "X" (at 1) (uuid "half"))
  (group (uuid "empty")))"#;
    let all = items(source);
    let fault = |r: Result<Vec<Edit>, EditError>| r.err().unwrap();
    assert_eq!(fault(rotate_item_source(&all, "no-place")), EditError::NoPosition);
    assert_eq!(fault(rotate_item_source(&all, "round")), EditError::NotRotatable);
    assert_eq!(fault(rotate_item_source(&all, "no-size")), EditError::NoSize);
    assert_eq!(fault(mirror_symbol_source(&all, "no-place", "z")), EditError::BadAxis);
    assert_eq!(
        fault(move_wire_endpoints_source(&all, "short", true, false, d(1.0), d(0.0))),
        EditError::NotTwoEnds
    );
    assert_eq!(fault(move_item_source(&all, "half", d(1.0), d(0.0))), EditError::MissingY);
    assert_eq!(fault(move_item_source(&all, "empty", d(1.0), d(0.0))), EditError::NoCoordinates);
    assert_eq!(fault(move_item_source(&all, "none", d(1.0), d(0.0))), EditError::NotFound);
    assert_eq!(
        EditError::BadAxis.describe("placed symbol", "x"),
        "mirror axis must be x or y"
    );
}

fn bounds(min_x: f64, min_y: f64, max_x: f64, max_y: f64) -> Bounds {
    Bounds { min_x: d(min_x), min_y: d(min_y), max_x: d(max_x), max_y: d(max_y) }
}

#[test]
fn left_to_right_box_requires_full_containment() {
    let object = bounds(5.0, 5.0, 15.0, 15.0);
    assert!(!box_selects_bounds(object, p(0.0, 0.0), p(10.0, 10.0)));
    assert!(box_selects_bounds(object, p(0.0, 0.0), p(20.0, 20.0)));
}

#[test]
fn right_to_left_box_selects_crossing_geometry() {
    let object = bounds(5.0, 5.0, 15.0, 15.0);
    assert!(box_selects_bounds(object, p(10.0, 10.0), p(0.0, 0.0)));
}

#[test]
fn drag_delta_snaps_once_at_commit_grid() {
    let start = p(100.0, 100.0);
    let current = p(112.0, 94.0);
    let snapped = drag_delta_mm(start, current, d(10.0), true, d(1.27));
    assert_eq!((f(snapped.0), f(snapped.1)), (1.27, 0.0));
    let free = drag_delta_mm(start, current, d(10.0), false, d(1.27));
    assert_eq!((f(free.0), f(free.1)), (1.2, -0.6));
}

#[test]
fn wire_points_use_the_active_grid() {
    let point = p(2.0, 3.0);
    assert_eq!(snap_point(point, true, d(1.27)), p(2.54, 2.54));
    assert_eq!(snap_point(point, false, d(1.27)), point);
}

fn item(uuid: &str, text: &str) -> ItemText {
    ItemText { uuid: uuid.to_owned(), text: text.to_owned() }
}

#[test]
fn external_change_summary_counts_uuid_owned_item_transitions() {
    let before = vec![
        item("wire-a", "(wire (pts (xy 0 0) (xy 1 0)) (uuid \"wire-a\"))"),
        item("junction-b", "(junction (at 1 0) (uuid \"junction-b\"))"),
    ];
    let after = vec![
        item("wire-a", "(wire (pts (xy 0 0) (xy 2 0)) (uuid \"wire-a\"))"),
        item("label-c", "(label \"NET\" (at 2 0 0) (uuid \"label-c\"))"),
    ];
    let summary = summarize_external_change("Power", &before, &after).unwrap();
    assert!(summary.description.contains("+1 added"));
    assert!(summary.description.contains("−1 removed"));
    assert!(summary.description.contains("~1 modified"));
    assert!(summary.description.contains("wire-a"));
    assert_eq!(summary.changed_uuids, ["label-c", "junction-b", "wire-a"]);
}

#[test]
fn an_external_change_seen_from_the_other_side_swaps_what_came_and_went() {
    let before = vec![item("a", "1"), item("b", "1"), item("c", "1")];
    let after = vec![item("c", "2"), item("d", "1")];
    let there = summarize_external_change("Power", &before, &after).unwrap();
    assert_eq!(there.changed_uuids, ["d", "a", "b", "c"]);
    let back = summarize_external_change("Power", &after, &before).unwrap();
    assert_eq!(back.changed_uuids, ["a", "b", "d", "c"]);
    assert!(back.description.contains("+2 added · −1 removed · ~1 modified"));
}

#[test]
fn an_unchanged_document_has_no_summary() {
    let items = vec![item("wire-a", "(wire)")];
    assert!(summarize_external_change("Power", &items, &items).is_none());
}

#[test]
fn lock_path_uses_the_kicad_editor_convention() {
    let lock = kicad_lock_path(Some("project"), Some("root.kicad_sch"));
    assert_eq!(
        format!("{}/{}", lock.directory, lock.file_name),
        "project/~root.kicad_sch.lck"
    );
    let unknown = kicad_lock_path(None, None);
    assert_eq!(unknown.file_name, "~schematic.kicad_sch.lck");
}

#[test]
fn coordinates_are_written_without_idle_digits() {
    assert_eq!(format_coord(d(11.27)), "11.27");
    assert_eq!(format_coord(d(-2.5)), "-2.5");
    assert_eq!(format_coord(d(40.0)), "40");
    assert_eq!(format_coord(d(0.0)), "0");
    assert_eq!(format_coord(d(0.1 + 0.2)), "0.3");
}

#[test]
fn a_group_is_edited_as_a_whole_or_not_at_all() {
    let source = r#"(kicad_sch
  (symbol (at 1 2 0) (uuid "b"))
  (symbol (at 3 4 90) (uuid "a"))
  (junction (at 5 6) (uuid "c")))"#;
    let all = items(source);
    let names = |list: &[&str]| list.iter().map(|n| n.to_string()).collect::<Vec<_>>();

    let turned = transform_items(&all, &names(&["b", "a"]), Transform::Rotate).ok().unwrap();
    assert_eq!(turned.changed, ["a", "b"]);
    let text = apply(source, turned.edits);
    assert!(text.contains("(at 1 2 90)") && text.contains("(at 3 4 180)"));
    assert!(text.contains("(junction (at 5 6) (uuid \"c\"))"));

    let fault = transform_items(&all, &names(&["a", "c"]), Transform::Rotate).err().unwrap();
    assert_eq!((fault.uuid.as_str(), fault.error), ("c", EditError::NotRotatable));
    let fault = move_items_with_connected_wires(&all, &names(&["zz"]), &Vec::new(), d(1.0), d(0.0))
        .err()
        .unwrap();
    assert_eq!((fault.uuid.as_str(), fault.error), ("zz", EditError::NotFound));
}
