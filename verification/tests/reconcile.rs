use radiodiodj::library::db::IndexRow;
use radiodiodj::library::reconcile::{reconcile_plan, Arrival, Placement, RowId};

fn row(id: i64, path: &str, missing_since: Option<i64>, fp: Option<&str>) -> IndexRow {
    IndexRow {
        id,
        path: path.into(),
        content_type: "music".into(),
        mtime: Some(1),
        missing_since,
        fingerprint: fp.map(|f| f.to_string()),
    }
}

fn new_file(path: &str, fingerprint: &str) -> Arrival {
    Arrival { path: path.into(), content_type: "music".into(), fingerprint: Some(fingerprint.into()) }
}

#[test]
fn the_most_recently_missing_twin_reattaches() {
    let index = vec![row(1, "/old.mp3", Some(2_000), Some("v1:x")), row(2, "/older.mp3", Some(1_000), Some("v1:x"))];
    let plan = reconcile_plan(&index, &[], &[], &[], &[], &[new_file("/new.mp3", "v1:x")], 3_000);
    assert_eq!(plan.done.reattached, 1);
    assert_eq!(plan.done.inserted + plan.done.duplicated, 0, "nothing inserted");
    assert_eq!(plan.placements, vec![Placement::Reattach(RowId::Stored(1))]);
}

#[test]
fn on_a_tie_the_newest_missing_row_reattaches() {
    let index = vec![row(3, "/a.mp3", Some(5), Some("v1:x")), row(8, "/b.mp3", Some(5), Some("v1:x"))];
    let plan = reconcile_plan(&index, &[], &[], &[], &[], &[new_file("/c.mp3", "v1:x")], 9);
    assert_eq!(plan.placements, vec![Placement::Reattach(RowId::Stored(8))]);
}

#[test]
fn two_copies_of_one_missing_track_reattach_one_and_duplicate_it() {
    let index = vec![row(1, "/a.mp3", Some(1), Some("v1:x"))];
    let plan = reconcile_plan(
        &index,
        &[],
        &[],
        &[],
        &[],
        &[new_file("/b.mp3", "v1:x"), new_file("/c.mp3", "v1:x")],
        2,
    );
    assert_eq!((plan.done.reattached, plan.done.duplicated), (1, 1));
    assert_eq!(
        plan.placements,
        vec![Placement::Reattach(RowId::Stored(1)), Placement::Duplicate(RowId::Stored(1))]
    );
}

#[test]
fn a_file_moved_within_one_scan_reattaches_to_the_row_marked_gone() {
    let index = vec![row(4, "/old/a.mp3", None, Some("v1:a"))];
    let plan = reconcile_plan(&index, &[], &[], &[4], &[], &[new_file("/new/a.mp3", "v1:a")], 50);
    assert_eq!(plan.done.missing, 1);
    assert_eq!(plan.placements, vec![Placement::Reattach(RowId::Stored(4))]);
}

#[test]
fn a_duplicate_copies_the_oldest_present_twin() {
    let index = vec![row(9, "/z.mp3", None, Some("v1:q")), row(5, "/y.mp3", None, Some("v1:q"))];
    let plan = reconcile_plan(&index, &[], &[], &[], &[], &[new_file("/x.mp3", "v1:q")], 1);
    assert_eq!(plan.placements, vec![Placement::Duplicate(RowId::Stored(5))]);
}

#[test]
fn a_new_copy_written_in_the_same_scan_is_a_twin_for_the_next() {
    let plan = reconcile_plan(
        &[],
        &[],
        &[],
        &[],
        &[],
        &[new_file("/a.mp3", "v1:n"), new_file("/b.mp3", "v1:n")],
        1,
    );
    assert_eq!(plan.placements, vec![Placement::Insert, Placement::Duplicate(RowId::Written(0))]);
    assert_eq!((plan.done.inserted, plan.done.duplicated), (1, 1));
}

#[test]
fn an_unfingerprinted_file_is_inserted_and_a_replaced_row_is_counted_apart() {
    let index = vec![row(1, "/a.mp3", None, Some("v1:a")), row(2, "/b.mp3", None, None)];
    let unhashed = Arrival { path: "/c.mp3".into(), content_type: "jingle".into(), fingerprint: None };
    let plan = reconcile_plan(&index, &[], &[], &[2, 7], &[1], &[unhashed], 10);
    assert_eq!(plan.placements, vec![Placement::Insert]);
    assert_eq!((plan.done.missing, plan.done.replaced, plan.done.inserted), (1, 1, 1));
}

#[test]
fn a_revived_row_is_no_longer_a_missing_twin() {
    let index = vec![row(1, "/a.mp3", Some(3), Some("v1:a"))];
    let plan = reconcile_plan(&index, &[1], &[], &[], &[], &[new_file("/b.mp3", "v1:a")], 10);
    assert_eq!(plan.placements, vec![Placement::Duplicate(RowId::Stored(1))]);
}

#[test]
fn an_upsert_gives_a_present_row_the_fingerprint_it_read() {
    let index = vec![row(1, "/a.mp3", None, None)];
    let upsert = new_file("/a.mp3", "v1:u");
    let plan = reconcile_plan(&index, &[], &[upsert], &[], &[], &[new_file("/b.mp3", "v1:u")], 10);
    assert_eq!(plan.placements, vec![Placement::Duplicate(RowId::Stored(1))]);
}
