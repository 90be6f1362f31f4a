use radiodiodj::library::db::{IndexRow, Reconciled};
use radiodiodj::library::listing::{should_rescan, Found};
use radiodiodj::library::scanner::{
    apply, cover_data_url, entry, outcome, plan, replaces, tag_text, Entry, Plan, Step,
};

fn row(id: i64, path: &str, mtime: i64, missing_since: Option<i64>, fp: Option<&str>) -> IndexRow {
    IndexRow {
        id,
        path: path.into(),
        content_type: "music".into(),
        mtime: Some(mtime),
        missing_since,
        fingerprint: fp.map(|f| f.to_string()),
    }
}

fn found(path: &str) -> Found {
    Found { path: path.into(), content_type: "music" }
}

#[test]
fn an_unchanged_file_is_skipped_and_a_changed_one_reread() {
    let index = vec![row(1, "/m/a.mp3", 10, None, Some("v1:a"))];
    let seen = vec!["/m/a.mp3".to_string()];
    assert_eq!(plan(&found("/m/a.mp3"), 10, &index, &seen, true), Plan::Skip);
    assert_eq!(
        plan(&found("/m/a.mp3"), 11, &index, &seen, true),
        Plan::Reread { id: 1, fingerprint: Some("v1:a".to_string()) }
    );
}

#[test]
fn a_file_back_at_its_path_brings_the_newest_missing_row() {
    let index = vec![
        row(1, "/m/a.mp3", 10, Some(5), None),
        row(2, "/m/a.mp3", 10, Some(9), Some("v1:x")),
        row(3, "/m/a.mp3", 10, Some(7), None),
    ];
    let seen = vec!["/m/a.mp3".to_string()];
    match plan(&found("/m/a.mp3"), 10, &index, &seen, false) {
        Plan::Unknown { returning: Some(r), changed, read_fingerprint } => {
            assert_eq!(r.id, 2);
            assert!(!changed);
            assert!(read_fingerprint);
        }
        other => panic!("unexpected {:?}", other),
    }
}

#[test]
fn a_first_scan_reads_no_fingerprint_for_a_new_file() {
    let seen = vec!["/m/new.mp3".to_string()];
    assert_eq!(
        plan(&found("/m/new.mp3"), 10, &[], &seen, false),
        Plan::Unknown { returning: None, changed: false, read_fingerprint: false }
    );
}

#[test]
fn only_two_different_fingerprints_prove_a_different_recording() {
    let a = Some("v1:a".to_string());
    let b = Some("v1:b".to_string());
    assert!(replaces(&a, &b));
    assert!(!replaces(&a, &a));
    assert!(!replaces(&None, &b));
    assert!(!replaces(&a, &None));
    let back = Some(row(4, "/m/a.mp3", 10, Some(1), Some("v1:a")));
    assert_eq!(entry(&back, &a), Entry::Revive(4));
    assert_eq!(entry(&back, &None), Entry::Revive(4));
    assert_eq!(entry(&back, &b), Entry::New);
    assert_eq!(entry(&None, &a), Entry::New);
}

fn steps() -> Vec<Step<&'static str>> {
    vec![
        Step::Update("u"),
        Step::New("n"),
        Step::Revive { id: 7, update: Some("r") },
        Step::Replaced { id: 8, new: "x" },
        Step::Revive { id: 9, update: None },
    ]
}

#[test]
fn a_scan_applies_every_step() {
    let c = apply(steps(), false, vec![3]);
    assert_eq!(c.upserts, vec!["u", "r"]);
    assert_eq!(c.revive, vec![7, 9]);
    assert_eq!(c.new_files, vec!["n", "x"]);
    assert_eq!(c.replaced, vec![8]);
    assert_eq!(c.gone, vec![3]);
}

#[test]
fn a_canceled_scan_leaves_new_files_for_the_next_one() {
    let c = apply(steps(), true, vec![3]);
    assert_eq!(c.upserts, vec!["u", "r"]);
    assert_eq!(c.revive, vec![7, 9]);
    assert!(c.new_files.is_empty());
    assert!(c.replaced.is_empty());
    assert!(c.gone.is_empty());
}

#[test]
fn a_scan_counts_rewritten_inserted_and_duplicated_rows_as_added() {
    let done = Reconciled { missing: 1, reattached: 2, duplicated: 3, inserted: 4, replaced: 5 };
    let o = outcome(10, 2, done, false);
    assert_eq!(o.total, 10);
    assert_eq!(o.added, 9);
    assert_eq!(o.missing, 1);
    assert_eq!(o.reattached, 2);
    assert_eq!(o.replaced, 5);
}

#[test]
fn an_untagged_file_takes_its_stem_and_unknown() {
    let t = tag_text("song", Some("MP3"), None, None, None, Some("1999"));
    assert_eq!(t.title, "song");
    assert_eq!(t.artist, "Unknown");
    assert_eq!(t.album, "Unknown");
    assert_eq!(t.format.as_deref(), Some("mp3"));
    assert_eq!(t.year, Some(1999));
    let t = tag_text("s", None, Some("T".into()), Some("A".into()), Some("B".into()), Some("ca. 1999"));
    assert_eq!((t.title.as_str(), t.artist.as_str(), t.album.as_str()), ("T", "A", "B"));
    assert_eq!(t.format, None);
    assert_eq!(t.year, None);
}

#[test]
fn cover_art_is_a_base64_data_url() {
    assert_eq!(cover_data_url(Some("image/png"), b"Man"), "data:image/png;base64,TWFu");
    assert_eq!(cover_data_url(Some(""), b"Ma"), "data:image/jpeg;base64,TWE=");
    assert_eq!(cover_data_url(None, &[0xfb, 0xff]), "data:image/jpeg;base64,+/8=");
}

#[test]
fn should_rescan_when_no_existing_row() {
    assert!(should_rescan(None, None, 100, "music"));
}

#[test]
fn should_rescan_when_existing_lacks_mtime() {
    assert!(should_rescan(Some("music"), None, 100, "music"));
}

#[test]
fn should_rescan_when_content_type_changed() {
    assert!(should_rescan(Some("jingle"), Some(100), 100, "music"));
}

#[test]
fn should_rescan_when_mtime_differs() {
    assert!(should_rescan(Some("music"), Some(99), 100, "music"));
}

#[test]
fn should_skip_when_unchanged() {
    assert!(!should_rescan(Some("music"), Some(100), 100, "music"));
}
