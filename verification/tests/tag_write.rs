use radiodiodj::library::db::TagValues;
use radiodiodj::library::tag_write::{
    failure_of, keeps_identity, refused_rename_message, rename_error, share_refused, temp_path, wants_write,
    write_plan, TagField,
    TagWriteFailure, TagWriteFailures, TagWriteQueue,
};

fn values() -> TagValues {
    TagValues {
        path: "/m/a.mp3".into(),
        title: Some("Title".into()),
        artist: Some("".into()),
        album: None,
        genre: Some("Jazz".into()),
        year: Some(1999),
        fingerprint: None,
        edited_fields: 1,
    }
}

#[test]
fn a_write_sets_filled_columns_and_clears_empty_ones() {
    let plan = write_plan(&values());
    assert_eq!(
        plan,
        vec![
            (TagField::Title, Some("Title".to_string())),
            (TagField::Artist, None),
            (TagField::Album, None),
            (TagField::Genre, Some("Jazz".to_string())),
            (TagField::Year, Some("1999".to_string())),
        ]
    );
    assert!(wants_write(&values()));
    assert!(!wants_write(&TagValues { edited_fields: 0, ..values() }));
}

#[test]
fn a_track_is_queued_once_and_drained_in_order() {
    let mut q = TagWriteQueue::new();
    assert!(q.enqueue(5));
    assert!(!q.enqueue(6));
    assert!(!q.enqueue(5));
    assert_eq!(q.next(), Some(5));
    assert_eq!(q.next(), Some(6));
    assert_eq!(q.next(), None);
    assert!(q.enqueue(5));
}

fn failure(id: i64, error: &str) -> TagWriteFailure {
    TagWriteFailure {
        id,
        title: "t".into(),
        artist: "a".into(),
        path: "/p".into(),
        error: error.into(),
        at: 1,
    }
}

#[test]
fn failures_are_kept_per_track_by_id() {
    let mut f = TagWriteFailures::new();
    f.record(failure(9, "x"));
    f.record(failure(2, "y"));
    f.record(failure(9, "z"));
    let ids: Vec<(i64, String)> = f.list().iter().map(|x| (x.id, x.error.clone())).collect();
    assert_eq!(ids, vec![(2, "y".to_string()), (9, "z".to_string())]);
    assert!(f.remove(2));
    assert!(!f.remove(2));
    assert_eq!(f.list().len(), 1);
}

#[test]
fn a_failure_names_the_track_and_the_error() {
    let f = failure_of(3, &TagValues { title: None, ..values() }, "timed out after 30 s".into(), 77);
    assert_eq!(f.title, "");
    assert_eq!(f.artist, "");
    assert_eq!(f.path, "/m/a.mp3");
    assert_eq!(f.error, "timed out after 30 s");
    assert_eq!(f.at, 77);
}

#[test]
fn a_rename_the_share_refuses_is_explained() {
    assert!(share_refused(true, true, true));
    assert!(!share_refused(true, false, true));
    assert!(refused_rename_message("os error 2").ends_with("then retry (os error 2)"));
    assert!(refused_rename_message("e").starts_with("the share could not rename this file"));
}

#[test]
fn a_write_goes_to_a_temp_file_beside_the_track() {
    assert_eq!(temp_path("/music/a.wav"), "/music/a.wav.rdj-tmp");
    assert_eq!(temp_path("b.mp3"), "b.mp3.rdj-tmp");
}

#[test]
fn a_refused_rename_is_explained_and_any_other_is_the_replace_failing() {
    let refused = rename_error(true, true, true, "No such file or directory (os error 2)");
    assert!(refused.starts_with("the share could not rename this file, although it is there."));
    assert!(refused.ends_with("(No such file or directory (os error 2))"));
    assert_eq!(
        rename_error(true, false, true, "No such file or directory (os error 2)"),
        "replace the file: No such file or directory (os error 2)"
    );
    assert_eq!(rename_error(false, true, true, "Permission denied"), "replace the file: Permission denied");
}

#[test]
fn a_copy_that_would_change_identity_is_refused() {
    assert!(keeps_identity(&None, &None));
    assert!(keeps_identity(&Some("v1:a".into()), &Some("v1:a".into())));
    assert!(!keeps_identity(&Some("v1:a".into()), &Some("v1:b".into())));
    assert!(!keeps_identity(&Some("v1:a".into()), &None));
}
