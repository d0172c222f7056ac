use schematic_viewer::attachment::symbol_unit_matches;
use schematic_viewer::rtree::{traversal_order, traversal_order_with_refresh, IndexBounds, IndexEntry};
use schematic_viewer::scene::{rank_of, svg_reference_ranks, ObjectKind};
use schematic_viewer::stl_sort::{glibcxx_sort_by, introsort_loop};

fn boxes() -> Vec<IndexEntry> {
    (0..80i64)
        .map(|index| {
            let x = (index * 17) % 31;
            let y = (index * 11) % 37;
            let bounds = IndexBounds {
                min_x: x * 10000,
                min_y: y * 10000,
                max_x: x * 10000 + 10000,
                max_y: y * 10000 + 10000,
            };
            IndexEntry { item_type: 0, initial: bounds, resolved: bounds }
        })
        .collect()
}

#[test]
fn traversal_survives_multiple_node_splits_without_loss() {
    let bounds = boxes();
    let first = traversal_order(&bounds);
    let second = traversal_order(&bounds);
    let mut sorted = first.clone();
    sorted.sort_unstable();

    assert_eq!(sorted, (0..bounds.len()).collect::<Vec<_>>());
    assert_eq!(first, second);
}

#[test]
fn refreshing_symbols_keeps_every_item() {
    let mut bounds = boxes();
    for (index, entry) in bounds.iter_mut().enumerate() {
        if index % 3 == 0 {
            entry.item_type = 70;
        }
    }
    let mut order = traversal_order_with_refresh(&bounds, 2);
    order.sort_unstable();
    assert_eq!(order, (0..80).collect::<Vec<usize>>());
}

#[test]
fn glibcxx_sort_keeps_keys_sorted_and_items_intact() {
    let mut values = (0..96).collect::<Vec<i32>>();
    glibcxx_sort_by(&mut values, |left, right| left % 7 > right % 7);
    assert!(values.windows(2).all(|pair| pair[0] % 7 >= pair[1] % 7));
    let mut intact = values;
    intact.sort_unstable();
    assert_eq!(intact, (0..96).collect::<Vec<_>>());
}

#[test]
fn sorting_falls_back_on_a_heap_when_partitions_degenerate() {
    // A killer sequence for the median of three: the depth limit is reached.
    let n = 4096usize;
    let mut values: Vec<i64> = vec![0; n];
    let half = n / 2;
    for i in 0..half {
        values[i] = if i % 2 == 0 { i as i64 + 1 } else { (half + i) as i64 };
        values[half + i] = 2 * (i as i64 + 1);
    }
    let mut expected = values.clone();
    expected.sort();
    glibcxx_sort_by(&mut values, |left, right| left < right);
    assert_eq!(values, expected);
}

#[test]
fn a_range_is_sorted_by_way_of_a_heap_when_the_depth_is_used_up() {
    let mut values: Vec<usize> = (0..30).collect();
    introsort_loop(&mut values, 0, 30, 0, |left, right| left % 5 < right % 5);
    let expected = [
        15, 10, 25, 0, 20, 5, 26, 1, 21, 11, 16, 6, 7, 17, 22, 12, 27, 2, 3, 8, 18, 23, 13, 28, 4,
        9, 19, 24, 14, 29,
    ];
    assert_eq!(values, expected);
}

#[test]
fn ties_keep_the_order_of_the_heap_where_partitions_degenerate() {
    let half = 128usize;
    let mut keys: Vec<usize> = vec![0; 2 * half];
    for i in 0..half {
        keys[i] = if i % 2 == 0 { i + 1 } else { half + i };
        keys[half + i] = 2 * (i + 1);
    }
    let mut values: Vec<(usize, usize)> = keys.into_iter().zip(0..).collect();
    glibcxx_sort_by(&mut values, |left, right| left.0 / 4 < right.0 / 4);
    let places: Vec<usize> = values.into_iter().map(|value| value.1).collect();
    let expected = [
        0, 2, 128, 129, 130, 6, 4, 131, 132, 10, 8, 133, 134, 14, 12, 135,
        136, 18, 16, 137, 138, 22, 20, 139, 140, 26, 24, 141, 142, 30, 28, 143,
        144, 34, 32, 38, 145, 146, 36, 42, 147, 40, 148, 46, 150, 149, 44, 50,
        152, 151, 48, 52, 54, 154, 153, 156, 155, 56, 58, 158, 157, 60, 62, 66,
        160, 159, 64, 161, 68, 70, 162, 72, 74, 164, 163, 76, 166, 78, 165, 168,
        167, 80, 82, 169, 84, 86, 170, 172, 171, 88, 90, 173, 174, 92, 94, 176,
        175, 98, 96, 102, 178, 100, 177, 106, 180, 104, 179, 110, 182, 108, 181, 114,
        184, 112, 183, 118, 186, 116, 185, 122, 188, 120, 187, 126, 190, 124, 189, 191,
        192, 1, 3, 193, 5, 7, 194, 11, 9, 195, 196, 15, 13, 197, 198, 19,
        17, 199, 200, 21, 23, 201, 202, 25, 27, 203, 204, 205, 29, 31, 206, 207,
        208, 33, 35, 209, 37, 39, 210, 212, 41, 43, 211, 47, 45, 214, 213, 49,
        51, 216, 215, 53, 218, 55, 217, 59, 57, 219, 220, 61, 63, 221, 222, 224,
        223, 67, 65, 225, 226, 69, 71, 75, 228, 227, 73, 230, 79, 77, 229, 83,
        232, 231, 81, 85, 234, 233, 87, 91, 89, 235, 236, 95, 93, 237, 238, 239,
        240, 97, 99, 101, 103, 241, 242, 105, 107, 243, 244, 109, 111, 245, 246, 247,
        248, 113, 115, 117, 119, 249, 250, 251, 252, 121, 123, 254, 125, 253, 127, 255,
    ];
    assert_eq!(places, expected);
}

#[test]
fn symbol_unit_match_accepts_common_and_selected_units() {
    assert!(symbol_unit_matches("R_0_1", 1));
    assert!(symbol_unit_matches("R_1_1", 1));
    assert!(!symbol_unit_matches("R_2_1", 1));
    assert!(!symbol_unit_matches("not_a_unit", 1));
}

#[test]
fn cached_svg_ranks_first_and_overlap_occurrences_independently() {
    let svg = "<desc>R2</desc><desc>R1</desc><desc>R1</desc><desc>R2</desc>";
    let references = vec!["R1".to_owned(), "R2".to_owned()];
    let first = svg_reference_ranks(svg, &references, 0).unwrap();
    let redraw = svg_reference_ranks(svg, &references, 1).unwrap();

    assert!(rank_of(&first, "R2").unwrap() < rank_of(&first, "R1").unwrap());
    assert!(rank_of(&redraw, "R1").unwrap() < rank_of(&redraw, "R2").unwrap());
}

#[test]
fn ranks_are_missing_where_a_reference_is() {
    assert!(svg_reference_ranks("<desc>R2</desc>", &vec!["R1".to_owned()], 0).is_none());
}

#[test]
fn object_kinds_remain_editor_visible() {
    assert_ne!(ObjectKind::Symbol, ObjectKind::Wire);
}
