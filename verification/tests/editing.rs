use std::sync::Arc;
use schematic_viewer::dialogs::{
    check_wire, start_label_edit, start_wire, LabelEdit, Opening, SheetEdit, SheetEditField,
};
use schematic_viewer::double::Double;
use schematic_viewer::edit_session::{
    can_exit_without_losing_staged_edits, EditSession, FileTransition, StageError,
};
use schematic_viewer::editor_history::{
    push_history, Command, GroupFailure, GroupStaging, History, HistoryCommand, HistoryCreation,
    HistoryEntry, HistoryStep,
};
use schematic_viewer::geometry::Point;
use schematic_viewer::hierarchy::HierarchyEntry;
use schematic_viewer::input::{dispatch_key, InputState, KeyAction, KeyPress, Modifiers, Typing};
use schematic_viewer::reload::{
    build_reload_batch, external_paths, join_requests, merge_sheets, note_external_change, Keyed,
    KeyedEntry, ReloadRequest, SheetBody, ShownSheet, Written,
};
use schematic_viewer::search::{SearchState, SearchedSheet};
use schematic_viewer::sexp::{Atom, Node};
use schematic_viewer::sheet_commit::{
    check_sheet_edit, check_sheet_files, commit_sheet_edit, find_child, hierarchy_path, ChildChange,
    ChildFile, ParentChange, SheetRefusal,
};
use schematic_viewer::sheet_facts::{
    check_child_path, has_next_page, nearest_sheet_edge, next_sheet_instance, sheet_rectangle, SheetRect, Side,
};
use schematic_viewer::viewer_settings::ViewerSettings;

fn d(v: f64) -> Double {
    let bits = v.to_bits();
    let field = ((bits >> 52) & 0x7ff) as i64;
    let low = bits & 0xf_ffff_ffff_ffff;
    if field == 0 {
        assert_eq!(low, 0);
        return Double { negative: false, mantissa: 0, exponent: 0 };
    }
    Double { negative: v < 0.0, mantissa: low | (1 << 52), exponent: field - 1075 }
}

fn f(v: Double) -> f64 {
    let m = v.mantissa as f64 * 2f64.powi(v.exponent as i32);
    if v.negative {
        -m
    } else {
        m
    }
}

fn skip_space(bytes: &[u8], mut at: usize) -> usize {
    while at < bytes.len() && bytes[at].is_ascii_whitespace() {
        at += 1;
    }
    at
}

fn parse_at(source: &str, start: usize) -> (Node, usize, Vec<(usize, usize)>) {
    let bytes = source.as_bytes();
    let mut at = skip_space(bytes, start);
    if bytes[at] == b'(' {
        at = skip_space(bytes, at + 1);
        let mut items = Vec::new();
        let mut lists = Vec::new();
        while bytes[at] != b')' {
            let is_list = bytes[at] == b'(';
            let (node, end, _) = parse_at(source, at);
            if is_list {
                lists.push((at, end));
            }
            items.push(node);
            at = skip_space(bytes, end);
        }
        return (Node::List(items), at + 1, lists);
    }
    if bytes[at] == b'"' {
        let first = at + 1;
        let mut text = String::new();
        at = first;
        while bytes[at] != b'"' {
            if bytes[at] == b'\\' {
                at += 1;
            }
            let c = source[at..].chars().next().unwrap();
            text.push(c);
            at += c.len_utf8();
        }
        return (Node::Atom(Atom { text, number: None }), at + 1, Vec::new());
    }
    let first = at;
    while at < bytes.len() && !bytes[at].is_ascii_whitespace() && bytes[at] != b'(' && bytes[at] != b')' {
        at += 1;
    }
    let text = source[first..at].to_owned();
    let number = text.parse::<f64>().ok().map(d);
    (Node::Atom(Atom { text, number }), at, Vec::new())
}

fn parse(source: &str) -> Node {
    parse_at(source, 0).0
}

fn p(x: f64, y: f64) -> Point {
    Point { x: d(x), y: d(y) }
}

fn source() -> String {
    "(kicad_sch\n  (uuid \"root\")\n)\n".to_owned()
}

fn s(text: &str) -> String {
    text.to_owned()
}

#[test]
fn stages_without_writing_and_emits_one_exact_transition() {
    let original = source();
    let mut session = EditSession::new();
    let prepared: Result<String, ()> = Ok(s("(kicad_sch (text \"staged\"))"));

    let staged = session.stage_command(s("root.kicad_sch"), "root.kicad_sch", &original, prepared);

    assert!(staged.is_ok());
    assert!(session.staged_source("root.kicad_sch").unwrap().contains("staged"));
    assert_eq!(session.dirty_document_count(), 1);
    let transitions = session.transitions();
    assert_eq!(transitions.len(), 1);
    assert!(matches!(
        &transitions[0],
        FileTransition::Replace { file, base, staged }
            if file == "root.kicad_sch" && *base == original && staged.contains("staged")
    ));
}

#[test]
fn staging_refuses_a_stale_text_and_a_rejected_command() {
    let mut session = EditSession::new();
    session.stage_replacement(s("a"), "a.kicad_sch", "one", s("two")).unwrap();
    let stale: Result<String, u8> = Ok(s("three"));
    let refused = session.stage_command(s("a"), "a.kicad_sch", "one", stale);
    assert!(matches!(refused, Err(StageError::Conflict(c)) if c.path == "a.kicad_sch"));
    let rejected: Result<String, u8> = Err(7);
    let refused = session.stage_command(s("a"), "a.kicad_sch", "two", rejected);
    assert!(matches!(refused, Err(StageError::Rejected(7))));
    assert_eq!(session.staged_source("a"), Some("two"));
}

#[test]
fn every_dirty_document_is_written_once() {
    let mut session = EditSession::new();
    session.stage_replacement(s("a"), "a", "one", s("two")).unwrap();
    session.stage_creation(s("b"), "b", s("new")).unwrap();
    session.stage_replacement(s("c"), "c", "same", s("same")).unwrap();
    session.stage_replacement(s("a"), "a", "two", s("three")).unwrap();
    let planned = session.transitions();
    assert_eq!(planned.len(), session.dirty_document_count());
    assert_eq!(planned.len(), 2);
    assert!(matches!(
        &planned[0],
        FileTransition::Replace { file, base, staged }
            if file == "a" && base == "one" && staged == "three"
    ));
    assert!(matches!(
        &planned[1],
        FileTransition::Create { file, staged } if file == "b" && staged == "new"
    ));
}

#[test]
fn marking_a_conflict_again_counts_nothing() {
    let mut session = EditSession::new();
    session.stage_creation(s("a"), "a", s("x")).unwrap();
    session.stage_creation(s("b"), "b", s("y")).unwrap();
    let keys = vec![s("a"), s("a"), s("other"), s("b")];
    assert_eq!(session.mark_external_change(&keys), 2);
    assert_eq!(session.mark_external_change(&keys), 0);
    assert_eq!(session.staged_source("a"), Some("x"));
}

#[test]
fn normalized_settings_lie_in_their_ranges() {
    let wild = ViewerSettings {
        ui_scale: d(0.5),
        dark_theme: true,
        diagnostics_panel_x: Some(d(-3.0)),
        diagnostics_panel_y: Some(d(7.0)),
        diagnostics_collapsed_x: Some(d(0.25)),
        ..ViewerSettings::default()
    };
    let settings = wild.normalized();
    assert_eq!(f(settings.ui_scale), 1.0);
    assert_eq!(settings.diagnostics_panel_x.map(f), Some(0.0));
    assert_eq!(settings.diagnostics_panel_y.map(f), Some(1.0));
    assert_eq!(settings.diagnostics_collapsed_x.map(f), Some(0.25));
    assert_eq!(settings.diagnostics_collapsed_y, None);
    assert!(settings.dark_theme && settings.highlight_changes);
}

#[test]
fn external_change_marks_only_a_staged_document_conflicted() {
    let mut session = EditSession::new();
    let first = s("first.kicad_sch");
    let second = s("second.kicad_sch");
    session
        .stage_creation(first.clone(), &first, source())
        .expect("stage creation");

    assert_eq!(session.mark_external_change(&vec![second]), 0);
    assert_eq!(session.mark_external_change(&vec![first]), 1);
    assert!(session.is_conflicted());
}

#[test]
fn returning_to_the_base_removes_the_document_from_the_commit_plan() {
    let mut session = EditSession::new();
    let file = s("root.kicad_sch");
    let original = source();
    session
        .stage_replacement(file.clone(), &file, &original, s("changed"))
        .expect("first replacement");
    session
        .stage_replacement(file.clone(), &file, "changed", original)
        .expect("restore base");

    assert!(!session.has_pending());
    assert!(session.transitions().is_empty());
}

#[test]
fn close_is_blocked_until_the_staged_session_is_resolved() {
    let mut edit_session = EditSession::new();
    let file = s("child.kicad_sch");
    let source = s("(kicad_sch (uuid \"child\"))");
    assert!(can_exit_without_losing_staged_edits(&edit_session));

    edit_session
        .stage_creation(file.clone(), &file, source.clone())
        .expect("stage creation");
    assert!(!can_exit_without_losing_staged_edits(&edit_session));

    edit_session
        .cancel_creation(&file, &file, &source)
        .expect("discard staged creation");
    assert!(can_exit_without_losing_staged_edits(&edit_session));
}

fn command(label: &str, item: &str) -> Command<u32> {
    Command { label: s(label), items: vec![s(item)], body: 0 }
}

#[test]
fn grouped_preparation_produces_matching_inverse_and_revisions() {
    let names = ["a.kicad_sch", "b.kicad_sch"];
    let commands = names
        .iter()
        .enumerate()
        .map(|(i, name)| HistoryCommand {
            file: s(name),
            command: command("Grouped labels", &format!("label-{i}")),
        })
        .collect();
    let entry = HistoryEntry::group(s("project"), commands);
    assert!(entry.is_grouped());

    let mut staging: GroupStaging<u32> = GroupStaging::new(&EditSession::new());
    for (name, command) in names.iter().zip(&entry.commands) {
        let before = s("(kicad_sch)");
        let after = format!("(kicad_sch {})", command.command.items[0]);
        let inverse = Command { label: s("Grouped labels"), items: Vec::new(), body: 1 };
        assert!(staging.stage(s(name), s(name), Some(before), Some((after, inverse))).is_ok());
    }

    assert_eq!(staging.candidate.transitions().len(), 2);
    assert_eq!(staging.inverses.len(), 2);
    assert_eq!(staging.rendered.len(), 2);
    assert_eq!(entry.label(), "Grouped labels");
    assert_eq!(entry.changed_items(), ["label-0", "label-1"]);
}

#[test]
fn a_group_stops_at_the_first_fault() {
    let mut staging: GroupStaging<u32> = GroupStaging::new(&EditSession::new());
    assert_eq!(
        staging.stage(s("a"), s("a"), None, None).err().map(name_of),
        Some("unreadable")
    );
    assert_eq!(
        staging.stage(s("a"), s("a"), Some(s("x")), None).err().map(name_of),
        Some("rejected")
    );
    let creation = HistoryCreation { file: s("new"), source: s("text") };
    assert!(staging.stage_creation(false, s("new"), &creation).is_ok());
    assert_eq!(
        staging.stage_creation(false, s("new"), &creation).err().map(name_of),
        Some("creation")
    );
    let stale = staging.stage(s("new"), s("new"), Some(s("other")), Some((s("y"), command("c", "i"))));
    assert_eq!(stale.err().map(name_of), Some("conflict"));
    assert!(staging.stage_creation(true, s("new"), &creation).is_ok());
}

fn name_of(failure: GroupFailure) -> &'static str {
    match failure {
        GroupFailure::Unreadable => "unreadable",
        GroupFailure::Rejected => "rejected",
        GroupFailure::Conflict => "conflict",
        GroupFailure::Creation => "creation",
    }
}

#[test]
fn the_history_forgets_its_oldest_step() {
    let mut stack: Vec<HistoryEntry<u32>> = Vec::new();
    for i in 0..201 {
        push_history(&mut stack, HistoryEntry::single(format!("{i}"), command("c", "i")));
    }
    assert_eq!(stack.len(), 200);
    assert_eq!(stack[0].commands[0].file, "1");
}

#[test]
fn steps_go_back_and_forth() {
    let mut history: History<u32> = History::new();
    assert!(matches!(history.take(false, true), HistoryStep::NotEditing));
    assert!(matches!(history.take(true, true), HistoryStep::Nothing));
    history.record(HistoryEntry::single(s("a"), command("Move", "i")));
    let HistoryStep::Single(step) = history.take(true, true) else {
        panic!("one command was recorded");
    };
    assert_eq!(step.command.label, "Move");
    history.settle(true, HistoryEntry::single(step.file, command("Move back", "i")));
    assert_eq!((history.undo.len(), history.redo.len()), (0, 1));
    history.record(HistoryEntry::single(s("a"), command("Turn", "i")));
    assert_eq!((history.undo.len(), history.redo.len()), (1, 0));
}

#[test]
fn normalization_clamps_ui_scale() {
    let settings = ViewerSettings { ui_scale: d(9.0), ..ViewerSettings::default() };
    assert_eq!(f(settings.normalized().ui_scale), 1.6f32 as f64);
}

#[test]
fn ui_scale_cycle_wraps() {
    let mut settings =
        ViewerSettings { ui_scale: d(1.6f32 as f64), ..ViewerSettings::default() };
    settings.cycle_ui_scale();
    assert_eq!(f(settings.ui_scale), 1.0);
}

#[test]
fn diagnostic_panel_positions_are_normalized() {
    let settings = ViewerSettings {
        diagnostics_panel_x: Some(d(1.4f32 as f64)),
        diagnostics_panel_y: Some(d(-0.2f32 as f64)),
        diagnostics_collapsed_x: Some(d(-0.4f32 as f64)),
        diagnostics_collapsed_y: Some(d(2.0)),
        ..ViewerSettings::default()
    }
    .normalized();

    assert_eq!(settings.diagnostics_panel_x.map(f), Some(1.0));
    assert_eq!(settings.diagnostics_panel_y.map(f), Some(0.0));
    assert_eq!(settings.diagnostics_collapsed_x.map(f), Some(0.0));
    assert_eq!(settings.diagnostics_collapsed_y.map(f), Some(1.0));
}

#[test]
fn normalizing_again_changes_nothing() {
    let once = ViewerSettings { ui_scale: d(0.25), ..ViewerSettings::default() }.normalized();
    assert_eq!(once.normalized(), once);
}

#[test]
fn next_sheet_instance_uses_root_uuid_and_next_numeric_page() {
    let root = parse(
        r#"(kicad_sch
          (uuid "root-a")
          (sheet (at 1 1) (size 10 10) (uuid "sheet-a")
            (instances (project "demo" (path "/root-a" (page "4")))))
          (sheet (at 20 1) (size 10 10) (uuid "sheet-b")
            (instances (project "demo" (path "/root-a" (page "2"))))))"#,
    );

    let instance = next_sheet_instance(&root).ok().unwrap();
    assert_eq!((instance.path, instance.page), ("/root-a".to_owned(), "5".to_owned()));
    assert!(next_sheet_instance(&parse("(kicad_sch)")).is_err());
    assert!(has_next_page(&root));
    let full = r#"(kicad_sch (sheet (instances (project "p" (path "/a" (page "4294967295"))))))"#;
    assert!(!has_next_page(&parse(full)));
}

#[test]
fn sheet_pin_projection_uses_the_nearest_border_and_snaps_along_it() {
    let rectangle =
        SheetRect { left: d(10.0), top: d(20.0), right: d(90.0), bottom: d(70.0) };

    let (right, right_side) = nearest_sheet_edge(rectangle, p(88.0, 33.1), d(2.54), true);
    let (top, top_side) = nearest_sheet_edge(rectangle, p(44.2, 20.4), d(2.54), true);

    assert_eq!(f(right.x), 90.0);
    assert!((f(right.y) / 2.54 - (f(right.y) / 2.54).round()).abs() < 1e-9);
    assert_eq!(right_side.rotation(), 0);
    assert_eq!(f(top.y), 20.0);
    assert!((f(top.x) / 2.54 - (f(top.x) / 2.54).round()).abs() < 1e-9);
    assert_eq!(top_side.rotation(), 90);
    assert_eq!((Side::Left.rotation(), Side::Bottom.rotation()), (180, 270));
}

#[test]
fn sheet_rectangle_reads_exact_at_and_size_geometry() {
    let root = parse(
        r#"(kicad_sch
            (sheet (at 12.7 25.4) (size 80 50) (uuid "sheet-a")))"#,
    );

    let rect = sheet_rectangle(&root, "sheet-a").unwrap();
    assert_eq!(
        (f(rect.left), f(rect.top), f(rect.right), f(rect.bottom)),
        (12.7, 25.4, 92.7, 75.4)
    );
    assert!(sheet_rectangle(&root, "sheet-b").is_none());
}

fn request(generation: u64, changed: &[&str], known: &[&str]) -> ReloadRequest {
    ReloadRequest {
        generation,
        root: s("root.kicad_sch"),
        changed: changed.iter().map(|n| s(n)).collect(),
        known: known.iter().map(|n| s(n)).collect(),
        external_change: false,
    }
}

fn entry(name: &str) -> KeyedEntry {
    KeyedEntry {
        key: s(name),
        entry: HierarchyEntry { name: s(name), depth: 0, file: s(name) },
    }
}

fn load(file: &String) -> Result<String, String> {
    if file == "bad" {
        Err(s("no such file"))
    } else {
        Ok(format!("text of {file}"))
    }
}

#[test]
fn background_reload_loads_changed_but_not_known_unchanged_sheet() {
    let key = "root.kicad_sch";
    let unchanged = request(1, &[], &[key]);
    let changed = request(1, &[key], &[key]);

    let unchanged_batch = build_reload_batch(&unchanged, Ok(vec![entry(key)]), || 1, load)
        .expect("current batch completes");
    let changed_batch = build_reload_batch(&changed, Ok(vec![entry(key)]), || 1, load)
        .expect("current batch completes");

    assert!(unchanged_batch.loaded.is_empty());
    assert_eq!(changed_batch.loaded.len(), 1);
    assert_eq!(changed_batch.loaded[0].key, key);
    assert!(changed_batch.loaded[0].value.is_ok());
}

#[test]
fn superseded_background_reload_is_cancelled() {
    let request = request(1, &["root.kicad_sch"], &[]);
    assert!(build_reload_batch(&request, Ok(vec![entry("root.kicad_sch")]), || 2, load).is_none());
}

#[test]
fn requests_are_joined_into_the_latest() {
    let mut dirty = vec![s("x")];
    let joined = join_requests(&vec![request(1, &["a"], &[]), request(2, &["b"], &["k"])], &mut dirty);
    assert_eq!(joined.generation, 2);
    dirty.sort();
    assert_eq!(dirty, ["a", "b", "x"]);
}

fn body(drawing: u8) -> SheetBody<u8> {
    SheetBody { items: Vec::new(), objects: Vec::new(), drawing }
}

#[test]
fn a_sheet_that_cannot_be_loaded_stays_as_it_was() {
    let shown = vec![ShownSheet {
        name: s("old"),
        depth: 0,
        file: s("bad"),
        key: s("bad"),
        body: Arc::new(body(1)),
    }];
    let loaded = vec![
        Keyed { key: s("bad"), value: Err(s("no such file")) },
        Keyed { key: s("new"), value: Ok(Arc::new(body(2))) },
    ];
    let merged = merge_sheets(shown, &vec![entry("bad"), entry("new")], loaded, false);
    assert_eq!(merged.sheets.len(), 2);
    assert_eq!(merged.sheets[0].body.drawing, 1);
    assert_eq!(merged.sheets[1].body.drawing, 2);
    assert_eq!(merged.errors.len(), 1);
    assert!(merged.errors[0].contains("no such file"));
}

#[test]
fn every_page_of_a_file_shows_what_was_loaded_of_it() {
    let page = |name: &str, file: &str, drawing: u8| ShownSheet {
        name: s(name),
        depth: 1,
        file: s(file),
        key: s(file),
        body: Arc::new(body(drawing)),
    };
    let shown = vec![page("a", "twice", 1), page("b", "other", 2), page("c", "twice", 1)];
    let entries =
        vec![entry("twice"), entry("other"), entry("twice"), entry("twice"), entry("other")];
    let loaded = vec![Keyed { key: s("twice"), value: Ok(Arc::new(body(7))) }];
    let merged = merge_sheets(shown, &entries, loaded, true);
    let drawings = merged.sheets.iter().map(|sheet| sheet.body.drawing).collect::<Vec<_>>();
    assert_eq!(drawings, [7, 2, 7, 7, 2]);
    assert!(merged.errors.is_empty());
}

#[test]
fn only_the_writing_of_others_is_news() {
    assert_eq!(
        external_paths(&vec![Written::Never, Written::AsWritten, Written::Changed]),
        [0, 2]
    );
    let mut session = EditSession::new();
    session.stage_creation(s("mine"), "mine", source()).unwrap();
    let news = note_external_change(&mut session, &vec![s("mine"), s("theirs")]);
    assert_eq!(news.reload, [1]);
    assert!(session.is_conflicted());
}

fn sheet_edit(name: &str, file: &str) -> SheetEdit {
    SheetEdit { point: p(1.0, 2.0), name: s(name), file: s(file), field: SheetEditField::Name }
}

fn refusal(edit: &SheetEdit) -> Option<String> {
    check_sheet_edit(edit, Some(&Vec::new()), false).err().and_then(|e| e.text())
}

#[test]
fn a_new_sheet_is_refused_for_the_reason_that_is_said() {
    assert_eq!(
        refusal(&sheet_edit(" ", "a.kicad_sch")).unwrap(),
        "Hierarchical sheet needs both a name and child filename"
    );
    assert_eq!(
        refusal(&sheet_edit("A", "../a.kicad_sch")).unwrap(),
        "Child file must be a relative .kicad_sch path without parent traversal"
    );
    let plan = check_sheet_edit(&sheet_edit(" A ", " a.kicad_sch "), Some(&Vec::new()), false).ok().unwrap();
    assert_eq!((plan.name.as_str(), plan.file.as_str()), ("A", "a.kicad_sch"));
    assert!(matches!(
        check_sheet_edit(&sheet_edit("A", "a.kicad_sch"), None, false),
        Err(SheetRefusal::NoSheet)
    ));
    assert!(matches!(check_sheet_files(false, true, false), Err(SheetRefusal::NoDirectory)));
    assert!(matches!(
        check_sheet_files(true, false, false),
        Err(SheetRefusal::ChildDirectoryMissing)
    ));
    assert!(matches!(check_sheet_files(true, true, true), Err(SheetRefusal::SelfReference)));
    assert!(check_sheet_files(true, true, false).is_ok());
    assert!(!SheetRefusal::NoSheet.keeps_dialog());
    assert!(SheetRefusal::Incomplete.keeps_dialog());
    assert_eq!(
        SheetRefusal::NameTaken(s("A")).text().unwrap(),
        "A hierarchical sheet named ‘A’ already exists"
    );
    assert!(check_child_path("sub/a.kicad_sch", false));
    assert!(!check_child_path("/a.kicad_sch", false));
    assert!(!check_child_path("a.txt", false));
    assert!(check_child_path("..\\a.kicad_sch", false));
    assert!(!check_child_path("..\\a.kicad_sch", true));
    assert!(!check_child_path("C:\\a.kicad_sch", true));
    assert!(!check_child_path("C:a.kicad_sch", true));
    assert!(!check_child_path("\\a.kicad_sch", true));
    assert!(check_child_path("sub\\a.kicad_sch", true));
}

#[test]
fn the_child_of_a_sheet_is_the_staged_one_first() {
    let mut session = EditSession::new();
    session.stage_creation(s("child"), "child", s("staged")).unwrap();
    let found = find_child(&session, "child", ChildFile::Missing).ok().unwrap();
    assert_eq!(found.as_deref(), Some("staged"));
    let found = find_child(&session, "other", ChildFile::Regular(Ok(s("kept")))).ok().unwrap();
    assert_eq!(found.as_deref(), Some("kept"));
    assert!(find_child(&session, "other", ChildFile::Missing).ok().unwrap().is_none());
    assert!(matches!(
        find_child(&session, "other", ChildFile::NotRegular),
        Err(SheetRefusal::ChildNotRegular)
    ));
    assert!(matches!(
        find_child(&session, "other", ChildFile::Regular(Err(s("e")))),
        Err(SheetRefusal::ChildUnreadable(_))
    ));
    assert_eq!(hierarchy_path("/root/", "sheet"), "/root/sheet");
}

fn parent(source: &str) -> ParentChange<u32> {
    ParentChange {
        key: s("parent"),
        file: s("parent.kicad_sch"),
        source: s(source),
        after: s("with sheet"),
        inverse: command("Add sheet", "sheet"),
    }
}

#[test]
fn a_sheet_is_staged_as_a_whole_or_not_at_all() {
    let mut session = EditSession::new();
    let mut history: History<u32> = History::new();
    let done = commit_sheet_edit(
        &mut session,
        &mut history,
        parent("parent"),
        s("child"),
        "child.kicad_sch",
        ChildChange::Created(s("blank")),
        s("dir"),
        "child.kicad_sch",
    );
    assert!(done.is_ok());
    assert_eq!(session.dirty_document_count(), 2);
    assert_eq!(history.undo.len(), 1);
    assert_eq!(history.undo[0].creations[0].source, "blank");

    let again = commit_sheet_edit(
        &mut session,
        &mut history,
        parent("parent"),
        s("child"),
        "child.kicad_sch",
        ChildChange::Linked,
        s("dir"),
        "child.kicad_sch",
    );
    assert_eq!(again.err().map(|c| c.path), Some(s("parent.kicad_sch")));
    assert_eq!(session.dirty_document_count(), 2);
    assert_eq!(history.undo.len(), 1);
}

fn none() -> Modifiers {
    Modifiers { shift: false, control: false, alt: false, command: false }
}

#[test]
fn a_label_is_typed_and_accepted() {
    let mut session = EditSession::new();
    assert!(matches!(start_label_edit(&session, Some(p(1.0, 1.0))), Opening::Refused(_)));
    session.set_enabled(true);
    let Opening::Opened(mut edit, _) = start_label_edit(&session, Some(p(1.0, 1.0))) else {
        panic!("the dialog opens");
    };
    assert!(edit.accept().is_err());
    assert_eq!(edit.handle_key(&KeyPress::Text(s("N")), none()), Typing::Typed);
    assert_eq!(edit.handle_key(&KeyPress::Text(s("ET")), none()), Typing::Typed);
    assert_eq!(edit.handle_key(&KeyPress::Backspace, none()), Typing::Typed);
    assert_eq!(edit.accept().ok().unwrap(), "NE");
    assert_eq!(edit.handle_key(&KeyPress::Enter, none()), Typing::Accept);
    assert_eq!(edit.handle_key(&KeyPress::Escape, none()), Typing::Cancel);
    let blank = LabelEdit { point: p(0.0, 0.0), value: s("  ") };
    assert_eq!(blank.accept().err().unwrap(), "A label needs a non-empty net name");
}

#[test]
fn tab_turns_to_the_other_field() {
    let mut edit = sheet_edit("", "");
    assert_eq!(edit.handle_key(&KeyPress::Tab, none()), Typing::Turn);
    assert_eq!(edit.handle_key(&KeyPress::Text(s("a")), none()), Typing::Typed);
    assert_eq!((edit.name.as_str(), edit.file.as_str()), ("", "a"));
}

#[test]
fn a_wire_needs_a_length() {
    let mut session = EditSession::new();
    session.set_enabled(true);
    assert!(matches!(
        start_wire(&session, Some(Some(p(1.0, 1.0))), false),
        Opening::Opened(_, _)
    ));
    assert!(check_wire(d(0.0), false).is_err());
    assert!(check_wire(d(2.54), true).is_ok());
}

#[test]
fn search_finds_without_regard_to_case() {
    let objects = Vec::new();
    let sheets = vec![
        SearchedSheet { name: "POWER Ω", file: "power.kicad_sch", objects: &objects },
        SearchedSheet { name: "Control", file: "control.kicad_sch", objects: &objects },
    ];
    let mut search = SearchState::new();
    for key in ["Ω"] {
        search.handle_key(&KeyPress::Text(s(key)), none());
    }
    assert!(search.refresh(&sheets).is_some());
    assert_eq!(search.hits.len(), 1);
    assert_eq!(search.hits[0].sheet, 0);
    assert_eq!(search.activate_search_hit().0, Some(0));
    search.query = s("CONTROL");
    search.refresh(&sheets);
    assert_eq!(search.hits.len(), 1);
    assert_eq!(search.hits[0].sheet, 1);
    search.query = s("absent");
    search.refresh(&sheets);
    let (hit, status) = search.activate_search_hit();
    assert_eq!(hit, None);
    assert_eq!(status, "Search · no results for ‘absent’");
}

#[test]
fn keys_go_to_the_open_dialog_first() {
    let idle = InputState {
        sheet_pin: false,
        sheet: false,
        label: false,
        property: false,
        search: false,
        text_selection: false,
        text_select_mode: false,
        external_preview: false,
        wire_draft: false,
    };
    let held = Modifiers { control: true, ..none() };
    assert_eq!(dispatch_key(&KeyPress::Text(s("z")), held, idle), KeyAction::Undo);
    let both = Modifiers { shift: true, ..held };
    assert_eq!(dispatch_key(&KeyPress::Text(s("Z")), both, idle), KeyAction::Redo);
    assert!(matches!(
        dispatch_key(&KeyPress::Text(s("r")), none(), InputState { search: true, ..idle }),
        KeyAction::Dialog(_)
    ));
    assert_eq!(
        dispatch_key(&KeyPress::Escape, none(), InputState { wire_draft: true, ..idle }),
        KeyAction::CancelWire
    );
    assert_eq!(dispatch_key(&KeyPress::Text(s("r")), none(), idle), KeyAction::Reload);
    assert_eq!(dispatch_key(&KeyPress::Text(s("R")), none(), idle), KeyAction::Reload);
    assert_eq!(dispatch_key(&KeyPress::Text(s("r")), held, idle), KeyAction::Reload);
    assert_eq!(dispatch_key(&KeyPress::Text(s("R")), both, idle), KeyAction::Reload);
    let shifted = Modifiers { shift: true, ..none() };
    assert_eq!(dispatch_key(&KeyPress::Text(s("R")), shifted, idle), KeyAction::Rotate);
    assert_eq!(dispatch_key(&KeyPress::Text(s("x")), none(), idle), KeyAction::MirrorX);
}
