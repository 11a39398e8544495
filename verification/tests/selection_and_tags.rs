use singing_sand::model::Tag;
use singing_sand::selection::{
    contains_id, plan_tag_toggle, position, selected_tag_items, selection_changed, unique_ids,
    Selection, TagChange,
};

fn sorted(mut v: Vec<i64>) -> Vec<i64> {
    v.sort();
    v
}

fn tag(id: i64, name: &str) -> Tag {
    Tag { id, name: name.to_string(), color: format!("#{id}") }
}

#[test]
fn plain_click_selects_only_the_track() {
    let ids = vec![1, 2, 3, 4];
    let mut s = Selection::new();
    assert_eq!(s.click(2, false, false, &ids), vec![2]);
    assert_eq!(s.click(4, false, false, &ids), vec![4]);
    assert_eq!(sorted(s.selected_ids()), vec![4]);
}

#[test]
fn meta_click_toggles_membership() {
    let ids = vec![1, 2, 3, 4];
    let mut s = Selection::new();
    s.click(1, false, false, &ids);
    assert_eq!(sorted(s.click(3, false, true, &ids)), vec![1, 3]);
    assert_eq!(sorted(s.click(1, false, true, &ids)), vec![3]);
    assert_eq!(sorted(s.click(1, false, true, &ids)), vec![1, 3]);
}

#[test]
fn meta_click_twice_restores_selection() {
    let ids = vec![10, 20, 30];
    let mut s = Selection::new();
    s.click(10, false, false, &ids);
    s.click(30, false, true, &ids);
    let before = sorted(s.selected_ids());
    s.click(20, false, true, &ids);
    s.click(20, false, true, &ids);
    assert_eq!(sorted(s.selected_ids()), before);
}

#[test]
fn shift_click_selects_range_from_anchor() {
    let ids = vec![5, 6, 7, 8, 9];
    let mut s = Selection::new();
    s.click(6, false, false, &ids);
    assert_eq!(sorted(s.click(8, true, false, &ids)), vec![6, 7, 8]);
    // The anchor stays on 6: a shift click before it selects backwards.
    assert_eq!(sorted(s.click(5, true, false, &ids)), vec![5, 6]);
}

#[test]
fn shift_click_without_anchor_selects_the_track() {
    let ids = vec![1, 2, 3];
    let mut s = Selection::new();
    assert_eq!(s.click(2, true, false, &ids), vec![2]);
}

#[test]
fn shift_click_outside_list_keeps_selection() {
    let ids = vec![1, 2, 3];
    let mut s = Selection::new();
    s.click(1, false, false, &ids);
    assert_eq!(s.click(99, true, false, &ids), vec![1]);
}

#[test]
fn id_helpers() {
    let v = vec![4, 7, 4, 9];
    assert_eq!(position(&v, 4), Some(0));
    assert_eq!(position(&v, 9), Some(3));
    assert_eq!(position(&v, 5), None);
    assert!(contains_id(&v, 7));
    assert!(!contains_id(&v, 8));
    assert_eq!(sorted(unique_ids(&v)), vec![4, 7, 9]);
}

#[test]
fn tag_panel_marks_assigned_and_partial() {
    let all = vec![tag(1, "chill"), tag(2, "loud"), tag(3, "new")];
    let track_tags = vec![(10, tag(1, "chill")), (11, tag(1, "chill")), (10, tag(2, "loud"))];
    let items = selected_tag_items(&all, &track_tags, &vec![10, 11]);
    let got: Vec<_> = items.iter().map(|t| (t.id, t.name.clone(), t.assigned, t.partial)).collect();
    assert_eq!(
        got,
        vec![
            (1, "chill".to_string(), true, false),
            (2, "loud".to_string(), false, true),
            (3, "new".to_string(), false, false),
        ]
    );
    assert_eq!(items[1].color, "#2");
}

#[test]
fn tag_panel_for_empty_selection_marks_nothing() {
    let all = vec![tag(1, "chill")];
    let items = selected_tag_items(&all, &vec![(10, tag(1, "chill"))], &Vec::new());
    assert!(!items[0].assigned);
    assert!(!items[0].partial);
}

#[test]
fn tag_panel_counts_duplicate_selection_once() {
    let all = vec![tag(1, "chill")];
    let items = selected_tag_items(&all, &vec![(10, tag(1, "chill"))], &vec![10, 10]);
    assert!(items[0].assigned);
    assert!(!items[0].partial);
}

#[test]
fn no_tag_is_both_assigned_and_partial() {
    let all = vec![tag(1, "a"), tag(2, "b")];
    let track_tags = vec![(1, tag(1, "a")), (2, tag(2, "b")), (3, tag(1, "a"))];
    for sel in [vec![1], vec![1, 2], vec![1, 3], vec![2, 3], vec![]] {
        for item in selected_tag_items(&all, &track_tags, &sel) {
            assert!(!(item.assigned && item.partial));
        }
    }
}

#[test]
fn selection_changed_carries_ids_and_panel() {
    let all = vec![tag(1, "a")];
    let dto = selection_changed(vec![3, 4], &all, &vec![(3, tag(1, "a"))]);
    assert_eq!(dto.selected_ids, vec![3, 4]);
    assert_eq!(dto.tag_items.len(), 1);
    assert!(dto.tag_items[0].partial);
}

#[test]
fn toggle_adds_tag_to_tracks_lacking_it() {
    let plan = plan_tag_toggle(1, &vec![10, 11, 12], &vec![(11, tag(1, "a")), (12, tag(2, "b"))]);
    assert_eq!(
        plan,
        vec![TagChange::Assign { track_id: 10 }, TagChange::Assign { track_id: 12 }]
    );
}

#[test]
fn toggle_removes_tag_carried_by_all() {
    let plan = plan_tag_toggle(1, &vec![10, 11], &vec![(10, tag(1, "a")), (11, tag(1, "a"))]);
    assert_eq!(
        plan,
        vec![TagChange::Unassign { track_id: 10 }, TagChange::Unassign { track_id: 11 }]
    );
}

#[test]
fn toggle_on_empty_selection_does_nothing() {
    assert_eq!(plan_tag_toggle(1, &Vec::new(), &Vec::new()), Vec::<TagChange>::new());
}
