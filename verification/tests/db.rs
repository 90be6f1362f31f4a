use radiodiodj::library::db::{
    artist_key, cue_reported, cue_write, effective_cue_points, exclude_sql, fts5_prefix_term,
    legacy_action, migration_steps, open_check, order_clause, owns_trio, schema_version, sibling,
    search_query, upsert_track_sql, cue_state_after_edit, AutoCuePolicy, LegacyAction, OpenError,
    SelectionFilter, SqlValue, TrackMetadataUpdate, DB_EPOCH,
};
use radiodiodj::playlist::model::CuePoints;
use rusqlite::types::Value;
use rusqlite_migration::{Migrations, M};

#[test]
fn migrations_are_valid() {
    let steps: Vec<M> = migration_steps().into_iter().map(M::up).collect();
    Migrations::new(steps).validate().unwrap();
}

#[test]
fn fts5_prefix_term_doubles_embedded_quotes() {
    assert_eq!(fts5_prefix_term("beat"), r#""beat"*"#);
    assert_eq!(fts5_prefix_term(r#"12""#), r#""12"""*"#);
    assert_eq!(fts5_prefix_term(r#"""#), r#"""""*"#);
    assert_eq!(fts5_prefix_term("AC/DC"), r#""AC/DC"*"#);
}

#[test]
fn the_epoch_is_the_stamped_literal() {
    assert_eq!(DB_EPOCH, 1_380_207_153);
    assert_eq!(schema_version(), 8);
}

#[test]
fn a_newer_schema_is_refused_and_an_older_one_backed_up() {
    assert_eq!(open_check(0), Ok(false));
    assert_eq!(open_check(3), Ok(true));
    assert_eq!(open_check(8), Ok(false));
    assert_eq!(open_check(9), Err(OpenError::TooNew { found: 9, supported: 8 }));
}

#[test]
fn a_database_from_an_unknown_epoch_is_refused() {
    assert_eq!(legacy_action(0, 7), LegacyAction::Keep);
    assert_eq!(legacy_action(5, DB_EPOCH), LegacyAction::Keep);
    assert_eq!(legacy_action(5, 0), LegacyAction::Retire);
    assert_eq!(
        legacy_action(5, 42),
        LegacyAction::Refuse(OpenError::TooNew { found: 5, supported: 8 })
    );
}

#[test]
fn an_artist_key_is_trimmed_and_ascii_lowered() {
    assert_eq!(artist_key("  The Band "), "the band");
    assert_eq!(artist_key("Björk"), "björk");
    assert_eq!(artist_key(""), "");
}

#[test]
fn the_exclusion_clause_has_one_placeholder_per_id() {
    assert_eq!(exclude_sql(&[]), "");
    assert_eq!(exclude_sql(&[4, 5, 6]), " AND id NOT IN (?, ?, ?)");
}

#[test]
fn a_filter_only_adds_the_rules_that_are_on() {
    let ids = [1i64];
    assert_eq!(SelectionFilter::excluding(&ids).sql(), " AND id NOT IN (?)");
    let keys = vec!["a".to_string(), "b".to_string()];
    let f = SelectionFilter {
        exclude_ids: &[],
        title_since: Some(5),
        artist_since: None,
        artist_keys: &keys,
        spread_artists: false,
    };
    assert_eq!(
        f.sql(),
        " AND id NOT IN (SELECT track_id FROM play_log WHERE track_id IS NOT NULL AND aired_at >= ?) AND lower(trim(artist)) NOT IN (?, ?)"
    );
}

#[test]
fn only_known_columns_are_sorted_on() {
    assert_eq!(order_clause(Some("title"), None).as_deref(), Some("title COLLATE NOCASE ASC"));
    assert_eq!(order_clause(Some("play_count"), Some("desc")).as_deref(), Some("play_count DESC"));
    assert_eq!(order_clause(Some("id; DROP TABLE tracks"), None), None);
    assert_eq!(order_clause(None, Some("desc")), None);
}

fn points(cue_in: Option<i64>, fade_in: Option<i64>, next: Option<i64>) -> CuePoints {
    CuePoints {
        cue_in_ms: cue_in,
        fade_in_ms: fade_in,
        fade_out_ms: None,
        cue_out_ms: None,
        next_start_ms: next,
    }
}

#[test]
fn a_derived_trio_is_hidden_while_the_feature_is_off() {
    let p = points(Some(100), Some(200), Some(300));
    let off = AutoCuePolicy { trio: false, next_start: true };
    assert_eq!(effective_cue_points(p, false, off), points(None, Some(200), None));
    assert_eq!(effective_cue_points(p, true, off), p);
    let no_next = AutoCuePolicy { trio: true, next_start: false };
    assert_eq!(effective_cue_points(p, false, no_next), points(Some(100), Some(200), None));
}

#[test]
fn editing_only_a_fade_keeps_the_trio_automatic() {
    let shown = points(Some(100), Some(200), Some(300));
    let edited = points(Some(100), Some(250), Some(300));
    assert!(!owns_trio(&edited, &shown));
    let stored = points(Some(90), Some(200), Some(310));
    assert_eq!(cue_write(&edited, &stored, false), points(Some(90), Some(250), Some(310)));
    assert_eq!(cue_reported(&edited, &shown, false), points(Some(100), Some(250), Some(300)));
    let moved = points(Some(150), Some(200), Some(300));
    assert!(owns_trio(&moved, &shown));
    assert_eq!(cue_write(&moved, &stored, true), moved);
}

#[test]
fn backups_are_named_beside_the_database() {
    assert_eq!(sibling("/data/radiodiodj.db", "v3.bak.db"), "/data/radiodiodj.v3.bak.db");
    assert_eq!(
        sibling("/data/radiodiodj.db", "legacy-v3.bak.db"),
        "/data/radiodiodj.legacy-v3.bak.db"
    );
}

#[test]
fn a_filter_binds_every_placeholder_it_writes_in_order() {
    let ids = [4i64, 7];
    let keys = vec!["a".to_string(), "b".to_string()];
    let f = SelectionFilter {
        exclude_ids: &ids,
        title_since: Some(100),
        artist_since: Some(200),
        artist_keys: &keys,
        spread_artists: false,
    };
    assert_eq!(
        f.params(),
        vec![
            SqlValue::Integer(4),
            SqlValue::Integer(7),
            SqlValue::Integer(100),
            SqlValue::Integer(200),
            SqlValue::Text("a".into()),
            SqlValue::Text("b".into()),
        ]
    );
    assert_eq!(f.sql().matches('?').count(), f.params().len());
    let plain = SelectionFilter::excluding(&[]);
    assert!(plain.params().is_empty());
    assert_eq!(plain.sql(), "");
}

#[test]
fn a_blank_search_lists_present_tracks_in_catalogue_order() {
    let (sql, params) = search_query("   ", None, None, None);
    assert_eq!(
        sql,
        "SELECT * FROM tracks WHERE missing_since IS NULL ORDER BY artist COLLATE NOCASE, album COLLATE NOCASE, title COLLATE NOCASE LIMIT 200"
    );
    assert!(params.is_empty());
    let (sql, params) = search_query("", Some("jingle"), Some("play_count"), Some("desc"));
    assert_eq!(
        sql,
        "SELECT * FROM tracks WHERE missing_since IS NULL AND content_type = ? ORDER BY play_count DESC LIMIT 200"
    );
    assert_eq!(params, vec![SqlValue::Text("jingle".into())]);
}

#[test]
fn a_search_matches_every_word_as_a_prefix_by_relevance() {
    let (sql, params) = search_query("  ac/dc  \"back ", Some("music"), Some("bogus"), None);
    assert_eq!(
        sql,
        "SELECT tracks.* FROM tracks_fts JOIN tracks ON tracks.id = tracks_fts.rowid WHERE tracks_fts MATCH ? AND tracks.missing_since IS NULL AND tracks.content_type = ? ORDER BY rank LIMIT 200"
    );
    assert_eq!(
        params,
        vec![SqlValue::Text("\"ac/dc\"* \"\"\"back\"*".into()), SqlValue::Text("music".into())]
    );
    assert_eq!(sql.matches('?').count(), params.len());
}

fn library_db() -> rusqlite::Connection {
    let mut conn = rusqlite::Connection::open_in_memory().unwrap();
    let steps: Vec<M> = migration_steps().into_iter().map(M::up).collect();
    Migrations::new(steps).to_latest(&mut conn).unwrap();
    conn
}

fn scanned(title: &str, artist: &str) -> Vec<Value> {
    vec![
        Value::Text("/music/a.wav".into()),
        Value::Text("music".into()),
        Value::Text(title.into()),
        Value::Text(artist.into()),
        Value::Null,
        Value::Null,
        Value::Null,
        Value::Real(1.0),
        Value::Null,
        Value::Null,
        Value::Null,
        Value::Text("wav".into()),
        Value::Integer(1000),
        Value::Null,
    ]
}

#[test]
fn a_rescan_keeps_an_edited_title_and_refreshes_the_rest() {
    let conn = library_db();
    let sql = upsert_track_sql();
    conn.execute(&sql, rusqlite::params_from_iter(scanned("Scanned", "Tagger"))).unwrap();
    conn.execute("UPDATE tracks SET title = 'Edited', edited_fields = 1", []).unwrap();
    conn.execute(&sql, rusqlite::params_from_iter(scanned("Retagged", "Someone Else"))).unwrap();
    let (title, artist): (String, String) = conn
        .query_row("SELECT title, artist FROM tracks", [], |r| Ok((r.get(0)?, r.get(1)?)))
        .unwrap();
    assert_eq!(title, "Edited");
    assert_eq!(artist, "Someone Else");
}

#[test]
fn the_upsert_keeps_each_tag_column_behind_its_edited_bit() {
    let sql = upsert_track_sql();
    for (column, bit) in [("title", 1), ("artist", 2), ("album", 4), ("genre", 8), ("year", 16)] {
        let clause = format!("{column}=CASE WHEN edited_fields & {bit} THEN {column} ELSE excluded.{column} END");
        assert!(sql.contains(&clause), "{clause}");
    }
}

fn update(content_type: Option<&str>) -> TrackMetadataUpdate {
    TrackMetadataUpdate {
        id: 1,
        title: None,
        artist: None,
        album: None,
        genre: None,
        year: None,
        content_type: content_type.map(str::to_string),
    }
}

#[test]
fn a_reclassified_track_goes_back_to_analysis_unless_its_cues_are_manual() {
    assert_eq!(cue_state_after_edit(&update(Some("jingle")), "music", "auto"), "pending");
    assert_eq!(cue_state_after_edit(&update(Some("jingle")), "music", "failed"), "pending");
    assert_eq!(cue_state_after_edit(&update(Some("jingle")), "music", "manual"), "manual");
    assert_eq!(cue_state_after_edit(&update(Some("music")), "music", "auto"), "auto");
    assert_eq!(cue_state_after_edit(&update(None), "music", "auto"), "auto");
}

#[test]
fn search_words_split_at_any_unicode_white_space() {
    let (_, params) = search_query("\u{3000}beat\u{a0}\tbox\n", None, None, None);
    assert_eq!(params, vec![SqlValue::Text("\"beat\"* \"box\"*".into())]);
}
