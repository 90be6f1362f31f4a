use lofty::file::{FileType, TaggedFileExt};
use lofty::probe::Probe;
use lofty::tag::ItemKey;
use radiodiodj::library::db::TagValues;
use radiodiodj::library::retag::{file_type_of, retag, write_fields};
use std::io::Cursor;

/// A one-channel 16-bit PCM WAV of `samples` silent samples.
fn wav(samples: u32) -> Vec<u8> {
    let data_len = samples * 2;
    let mut b = Vec::new();
    b.extend_from_slice(b"RIFF");
    b.extend_from_slice(&(36 + data_len).to_le_bytes());
    b.extend_from_slice(b"WAVE");
    b.extend_from_slice(b"fmt ");
    b.extend_from_slice(&16u32.to_le_bytes());
    b.extend_from_slice(&1u16.to_le_bytes());
    b.extend_from_slice(&1u16.to_le_bytes());
    b.extend_from_slice(&8000u32.to_le_bytes());
    b.extend_from_slice(&16000u32.to_le_bytes());
    b.extend_from_slice(&2u16.to_le_bytes());
    b.extend_from_slice(&16u16.to_le_bytes());
    b.extend_from_slice(b"data");
    b.extend_from_slice(&data_len.to_le_bytes());
    b.resize(b.len() + data_len as usize, 0);
    b
}

fn values(title: Option<&str>, artist: Option<&str>) -> TagValues {
    TagValues {
        path: "/music/a.wav".to_string(),
        title: title.map(str::to_string),
        artist: artist.map(str::to_string),
        album: None,
        genre: None,
        year: None,
        fingerprint: None,
        edited_fields: 1,
    }
}

fn text_of(bytes: &[u8], key: ItemKey) -> Option<String> {
    let file = Probe::new(Cursor::new(bytes)).guess_file_type().unwrap().read().unwrap();
    file.primary_tag().and_then(|t| t.get_string(key).map(str::to_string))
}

#[test]
fn a_retagged_copy_carries_the_edited_fields() {
    let original = wav(100);
    let tagged = retag(original.clone(), &values(Some("Edited"), Some("Someone")), Some("wav")).unwrap();
    assert_ne!(tagged, original);
    assert_eq!(text_of(&tagged, ItemKey::TrackTitle).as_deref(), Some("Edited"));
    assert_eq!(text_of(&tagged, ItemKey::TrackArtist).as_deref(), Some("Someone"));
}

#[test]
fn an_empty_column_clears_its_field() {
    let tagged = retag(wav(100), &values(Some("Edited"), Some("Someone")), Some("wav")).unwrap();
    let cleared = retag(tagged, &values(Some("Edited"), Some("")), Some("wav")).unwrap();
    assert_eq!(text_of(&cleared, ItemKey::TrackTitle).as_deref(), Some("Edited"));
    assert_eq!(text_of(&cleared, ItemKey::TrackArtist), None);
}

#[test]
fn content_that_names_no_format_and_no_extension_is_an_unknown_file_type() {
    let err = retag(vec![0u8; 64], &values(Some("Edited"), None), None).unwrap_err();
    assert_eq!(err, "unknown file type");
    let err = retag(vec![0u8; 64], &values(Some("Edited"), None), Some("xyz")).unwrap_err();
    assert_eq!(err, "unknown file type");
}

#[test]
fn the_extension_names_the_format_only_when_the_content_does_not() {
    assert_eq!(file_type_of(Some(FileType::Wav), Some(FileType::Mpeg)), Ok(FileType::Wav));
    assert_eq!(file_type_of(None, Some(FileType::Mpeg)), Ok(FileType::Mpeg));
    assert_eq!(file_type_of(None, None), Err("unknown file type".to_string()));
}

#[test]
fn writing_fields_sets_and_clears_the_primary_tag() {
    let mut file = Probe::new(Cursor::new(wav(100))).guess_file_type().unwrap().read().unwrap();
    let tag_type = file.primary_tag_type();
    file.insert_tag(lofty::tag::Tag::new(tag_type));
    file.primary_tag_mut().unwrap().insert_text(ItemKey::Genre, "Jazz".to_string());
    let refused = write_fields(&mut file, &values(Some("Edited"), None));
    assert!(refused.is_empty());
    let tag = file.primary_tag().unwrap();
    assert_eq!(tag.get_string(ItemKey::TrackTitle), Some("Edited"));
    assert_eq!(tag.get_string(ItemKey::TrackArtist), None);
    assert_eq!(tag.get_string(ItemKey::Genre), None);
}
