use schematic_viewer::change_timeline::{ChangeKind, ChangeOrigin, ChangeTimeline, INTRO_MILLIS};

#[test]
fn timeline_retains_complete_process_lifetime_history_and_deduplicates_item_ids() {
    let mut timeline = ChangeTimeline::new();
    for index in 0..=500 {
        timeline.push(
            ChangeOrigin::Local,
            format!("change {index}"),
            "root.kicad_sch".to_owned(),
            &vec!["same".to_owned(), "same".to_owned()],
            0,
            0,
        );
    }
    assert_eq!(timeline.events().len(), 501);
    assert_eq!(timeline.events()[0].id, 1);
    assert_eq!(timeline.events()[500].id, 501);
    assert_eq!(timeline.events()[500].uuids, ["same"]);
}

#[test]
fn origin_labels_are_human_readable() {
    assert_eq!(ChangeOrigin::Local.label(), "You");
    assert_eq!(ChangeOrigin::External.label(), "Konnect");
}

#[test]
fn every_change_is_classified_for_iconography() {
    for (origin, label, expected) in [
        (ChangeOrigin::Local, "Moved symbol", ChangeKind::Move),
        (ChangeOrigin::Local, "Delete items", ChangeKind::Delete),
        (ChangeOrigin::Local, "Add wire", ChangeKind::Wire),
        (ChangeOrigin::Local, "Rotate symbol", ChangeKind::Transform),
        (
            ChangeOrigin::Local,
            "Duplicate symbol",
            ChangeKind::Duplicate,
        ),
        (ChangeOrigin::Local, "Edit Value", ChangeKind::Edit),
        (
            ChangeOrigin::External,
            "File reloaded",
            ChangeKind::External,
        ),
        (ChangeOrigin::Undo, "Moved symbol", ChangeKind::Undo),
        (ChangeOrigin::Redo, "Moved symbol", ChangeKind::Redo),
    ] {
        assert_eq!(ChangeKind::classify(origin, label), expected);
    }
}

#[test]
fn a_recorded_change_is_found_by_its_number_and_animates_for_a_while() {
    let mut timeline = ChangeTimeline::new();
    let id = timeline.push(
        ChangeOrigin::External,
        "Reload".to_owned(),
        "a.kicad_sch".to_owned(),
        &vec!["b".to_owned(), "a".to_owned()],
        7,
        1000,
    );
    let event = timeline.event(id).unwrap();
    assert_eq!(event.uuids, ["a", "b"]);
    assert_eq!(event.recorded_at, 7);
    assert!(timeline.event(id + 1).is_none());
    assert!(timeline.is_animating(1000 + INTRO_MILLIS - 1));
    assert!(!timeline.is_animating(1000 + INTRO_MILLIS));
    assert_eq!(timeline.len(), 1);
}
