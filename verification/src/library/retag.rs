//! Making a tagged copy of an audio file: the file's bytes, read in memory,
//! with a track's edited fields in its primary tag.
//!
//! lofty parses the file and writes it back; what is written, in which
//! order, and what happens when the content names no format or the file has
//! no primary tag is decided here.

use lofty::config::WriteOptions;
use lofty::file::{AudioFile, FileType, TaggedFile, TaggedFileExt};
use lofty::probe::Probe;
use lofty::tag::{ItemKey, Tag, TagType};
use std::io::Cursor;
use vstd::prelude::*;

use super::db::TagValues;
use super::tag_write::{spec_write_plan, write_plan, TagField};

verus! {

/// A parsed audio file: its format, properties and tags.
#[verifier::external_type_specification]
#[verifier::external_body]
pub struct ExTaggedFile(TaggedFile);

/// The kind of a tag: ID3v2, RIFF INFO, Vorbis comments and the like.
#[verifier::external_type_specification]
#[verifier::external_body]
pub struct ExTagType(TagType);

/// An audio format lofty can parse.
#[verifier::external_type_specification]
#[verifier::external_body]
pub struct ExFileType(FileType);

/// The text the file's primary tag holds for each write-back field: the
/// tag is a collection of items, this is its part that a write-back sets or
/// clears.
pub uninterp spec fn primary_fields(file: TaggedFile) -> Map<TagField, Seq<char>>;

/// Whether the file holds a tag of its format's primary tag type.
pub uninterp spec fn has_primary(file: TaggedFile) -> bool;

/// The format the content of `bytes` names, read by lofty's
/// `Probe::guess_file_type` and `Probe::file_type`. lofty also consults the
/// format resolvers the process registered, so nothing is claimed of the
/// result.
#[verifier::external_body]
fn content_type(bytes: &[u8]) -> (r: Result<Option<FileType>, String>) {
    Probe::new(Cursor::new(bytes)).guess_file_type().map(|p| p.file_type()).map_err(|e| e.to_string())
}

/// The format a file extension names, by lofty's `FileType::from_ext`. It
/// consults the process's registered resolvers too, so nothing is claimed of
/// the result.
#[verifier::external_body]
fn extension_type(ext: &str) -> (r: Option<FileType>) {
    FileType::from_ext(ext)
}

/// `bytes` parsed as `file_type` by lofty's `Probe::with_file_type` and
/// `Probe::read`; a parse error is given as its message.
#[verifier::external_body]
fn read_tagged(bytes: &[u8], file_type: FileType) -> (r: Result<TaggedFile, String>) {
    Probe::with_file_type(Cursor::new(bytes), file_type).read().map_err(|e| format!("read tags: {e}"))
}

/// Whether `file` holds its primary tag (`TaggedFileExt::primary_tag`).
#[verifier::external_body]
fn holds_primary_tag(file: &TaggedFile) -> (r: bool)
    ensures
        r == has_primary(*file),
{
    file.primary_tag().is_some()
}

/// The type of the tag the format of `file` reads and writes first
/// (`TaggedFileExt::primary_tag_type`).
#[verifier::external_body]
fn primary_tag_type(file: &TaggedFile) -> (r: TagType) {
    file.primary_tag_type()
}

/// Give `file` an empty tag of `tag_type`, by lofty's
/// `TaggedFileExt::insert_tag` with `Tag::new`, which replaces a tag of that
/// type, or does nothing where the format cannot hold it. A file that had no
/// primary tag and has one afterwards holds the new, empty one.
#[verifier::external_body]
fn insert_empty_tag(file: &mut TaggedFile, tag_type: TagType)
    requires
        !has_primary(*old(file)),
    ensures
        has_primary(*final(file)) ==> primary_fields(*final(file)).dom().is_empty(),
{
    file.insert_tag(Tag::new(tag_type));
}

/// Set `field` to `text` in the primary tag, by lofty's `Tag::insert_text`,
/// which replaces every item of the field's key and reports whether the tag
/// type has a place for the key; where it has none the tag is unchanged.
#[verifier::external_body]
fn put_field(file: &mut TaggedFile, field: TagField, text: String) -> (r: Option<bool>)
    requires
        has_primary(*old(file)),
    ensures
        has_primary(*final(file)),
        r is Some,
        r == Some(true) ==> primary_fields(*final(file)) == primary_fields(*old(file)).insert(field, text@),
        r == Some(false) ==> primary_fields(*final(file)) == primary_fields(*old(file)),
{
    let key = match field {
        TagField::Title => ItemKey::TrackTitle,
        TagField::Artist => ItemKey::TrackArtist,
        TagField::Album => ItemKey::AlbumTitle,
        TagField::Genre => ItemKey::Genre,
        TagField::Year => ItemKey::Year,
    };
    file.primary_tag_mut().map(|tag| tag.insert_text(key, text))
}

/// Clear `field` in the primary tag, by lofty's `Tag::remove_key`, which
/// removes every item of the field's key.
#[verifier::external_body]
fn drop_field(file: &mut TaggedFile, field: TagField)
    requires
        has_primary(*old(file)),
    ensures
        has_primary(*final(file)),
        primary_fields(*final(file)) == primary_fields(*old(file)).remove(field),
{
    let key = match field {
        TagField::Title => ItemKey::TrackTitle,
        TagField::Artist => ItemKey::TrackArtist,
        TagField::Album => ItemKey::AlbumTitle,
        TagField::Genre => ItemKey::Genre,
        TagField::Year => ItemKey::Year,
    };
    let _ = file.primary_tag_mut().map(|tag| tag.remove_key(key));
}

/// `file` written over `bytes`, the file it was read from, by lofty's
/// `AudioFile::save_to` with the default options; an encoding error is given
/// as its message. The bytes depend on the whole parsed file, of which only
/// the write-back fields are modelled here, so nothing is claimed of them.
#[verifier::external_body]
fn save_tagged(file: &TaggedFile, bytes: Vec<u8>) -> (r: Result<Vec<u8>, String>) {
    let mut out = Cursor::new(bytes);
    file.save_to(&mut out, WriteOptions::default()).map(|_| out.into_inner()).map_err(|e| format!("write tags: {e}"))
}

/// One step of a write-back: a text sets the field unless the tag type
/// refused it, no text clears it.
pub open spec fn apply_step(
    fields: Map<TagField, Seq<char>>,
    step: (TagField, Option<Seq<char>>),
    refused: Seq<TagField>,
) -> Map<TagField, Seq<char>> {
    match step.1 {
        Some(text) => if refused.contains(step.0) {
            fields
        } else {
            fields.insert(step.0, text)
        },
        None => fields.remove(step.0),
    }
}

/// `fields` after each step of `plan` in turn.
pub open spec fn applied(
    fields: Map<TagField, Seq<char>>,
    plan: Seq<(TagField, Option<Seq<char>>)>,
    refused: Seq<TagField>,
) -> Map<TagField, Seq<char>>
    decreases plan.len(),
{
    if plan.len() == 0 {
        fields
    } else {
        apply_step(applied(fields, plan.drop_last(), refused), plan.last(), refused)
    }
}

/// Whether `field` is set to a text by some step of `plan`.
pub open spec fn sets(plan: Seq<(TagField, Option<Seq<char>>)>, field: TagField) -> bool {
    exists|i: int| 0 <= i < plan.len() && plan[i].0 == field && plan[i].1 is Some
}

/// Write `values`' fields into the primary tag of `file`, in the order of
/// `write_plan`: each text sets its field, each empty column clears it.
/// Returns the fields whose text the tag type had no place for, which the
/// tag keeps as it was.
pub fn write_fields(file: &mut TaggedFile, values: &TagValues) -> (refused: Vec<TagField>)
    requires
        has_primary(*old(file)),
    ensures
        has_primary(*final(file)),
        primary_fields(*final(file)) == applied(
            primary_fields(*old(file)),
            spec_write_plan(*values),
            refused@,
        ),
        forall|f: TagField| refused@.contains(f) ==> sets(spec_write_plan(*values), f),
{
    let plan = write_plan(values);
    let ghost steps = spec_write_plan(*values);
    let ghost start = primary_fields(*file);
    proof {
        assert(super::tag_write::plan_views(plan@).len() == plan@.len());
        assert(steps.len() == 5);
        assert(steps[0].0 == TagField::Title && steps[1].0 == TagField::Artist && steps[2].0 == TagField::Album
            && steps[3].0 == TagField::Genre && steps[4].0 == TagField::Year);
        assert(steps.take(0) == Seq::<(TagField, Option<Seq<char>>)>::empty());
    }
    let mut refused: Vec<TagField> = Vec::new();
    let mut i: usize = 0;
    while i < plan.len()
        invariant
            0 <= i <= plan.len(),
            plan.len() == 5,
            steps == spec_write_plan(*values),
            super::tag_write::plan_views(plan@) == steps,
            has_primary(*file),
            forall|k: int, j: int| 0 <= k < j < 5 ==> steps[k].0 != steps[j].0,
            forall|f: TagField| refused@.contains(f) ==> exists|k: int| 0 <= k < i && steps[k].0 == f && steps[k].1 is Some,
            forall|k: int| i <= k < 5 ==> !refused@.contains(#[trigger] steps[k].0),
            primary_fields(*file) == applied(start, steps.take(i as int), refused@),
        decreases plan.len() - i,
    {
        let field = plan[i].0;
        let value = plan[i].1.clone();
        let ghost done = refused@;
        proof {
            assert(steps[i as int].0 == field);
            assert(steps.take(i as int + 1).drop_last() == steps.take(i as int));
            assert(steps.take(i as int + 1).last() == steps[i as int]);
            assert(!done.contains(field));
        }
        match value {
            Some(text) => {
                let taken = put_field(file, field, text);
                match taken {
                    Some(true) => {},
                    _ => {
                        refused.push(field);
                        proof {
                            assert(refused@ == done.push(field));
                            assert forall|k: int| 0 <= k < steps.take(i as int).len() implies steps.take(
                                i as int,
                            )[k].0 != field by {
                                assert(steps.take(i as int)[k] == steps[k]);
                            }
                            lemma_refusing_an_untouched_field(start, steps.take(i as int), done, field);
                            assert(refused@.contains(field)) by {
                                assert(refused@[done.len() as int] == field);
                            }
                            assert forall|f: TagField| refused@.contains(f) implies exists|k: int|
                                0 <= k < i + 1 && steps[k].0 == f && steps[k].1 is Some by {
                                let j = choose|j: int| 0 <= j < refused@.len() && refused@[j] == f;
                                if j < done.len() {
                                    assert(done[j] == f);
                                    assert(done.contains(f));
                                } else {
                                    assert(steps[i as int].0 == f);
                                }
                            }
                            assert forall|k: int| i + 1 <= k < 5 implies !refused@.contains(
                                #[trigger] steps[k].0,
                            ) by {
                                if refused@.contains(steps[k].0) {
                                    let j = choose|j: int| 0 <= j < refused@.len() && refused@[j] == steps[k].0;
                                    if j < done.len() {
                                        assert(done[j] == steps[k].0);
                                        assert(done.contains(steps[k].0));
                                    }
                                }
                            }
                        }
                    },
                }
            },
            None => {
                drop_field(file, field);
            },
        }
        i = i + 1;
    }
    proof {
        assert(steps.take(5) == steps);
    }
    refused
}

/// Steps that never touch `field` give the same result whether or not it is
/// refused.
proof fn lemma_refusing_an_untouched_field(
    fields: Map<TagField, Seq<char>>,
    plan: Seq<(TagField, Option<Seq<char>>)>,
    refused: Seq<TagField>,
    field: TagField,
)
    requires
        forall|k: int| 0 <= k < plan.len() ==> plan[k].0 != field,
    ensures
        applied(fields, plan, refused.push(field)) == applied(fields, plan, refused),
    decreases plan.len(),
{
    if plan.len() > 0 {
        lemma_refusing_an_untouched_field(fields, plan.drop_last(), refused, field);
        assert(refused.push(field).contains(plan.last().0) == refused.contains(plan.last().0)) by {
            if refused.push(field).contains(plan.last().0) {
                let k = choose|k: int| 0 <= k < refused.push(field).len() && refused.push(field)[k] == plan.last().0;
                assert(k < refused.len());
            }
            if refused.contains(plan.last().0) {
                let k = choose|k: int| 0 <= k < refused.len() && refused[k] == plan.last().0;
                assert(refused.push(field)[k] == plan.last().0);
            }
        }
    }
}

/// The content's format where it names one, else the extension's.
pub open spec fn chosen_type(by_content: Option<FileType>, by_extension: Option<FileType>) -> Option<FileType> {
    match by_content {
        Some(t) => Some(t),
        None => by_extension,
    }
}

/// The format a copy is parsed as: the one the content names, else the one
/// the file's extension names; with neither the copy fails as an unknown file
/// type.
pub fn file_type_of(by_content: Option<FileType>, by_extension: Option<FileType>) -> (r: Result<FileType, String>)
    ensures
        (match chosen_type(by_content, by_extension) {
            Some(t) => r matches Ok(u) && u == t,
            None => r matches Err(e) && e@ == "unknown file type"@,
        }),
{
    match by_content {
        Some(t) => Ok(t),
        None => match by_extension {
            Some(t) => Ok(t),
            None => Err("unknown file type".to_string()),
        },
    }
}

/// `bytes`, the content of a file whose extension is `ext`, with `values`'
/// fields written into its primary tag.
///
/// The format is the one the content names, else the one the extension
/// names; with neither the copy fails as an unknown file type. A file with
/// no primary tag is given an empty one first; a format that cannot hold one
/// fails as having no writable tag. lofty's parse and write errors are
/// returned as they come.
pub fn retag(bytes: Vec<u8>, values: &TagValues, ext: Option<&str>) -> (r: Result<Vec<u8>, String>) {
    let guessed = match content_type(bytes.as_slice()) {
        Ok(t) => t,
        Err(e) => return Err(e),
    };
    let by_extension = match (&guessed, ext) {
        (None, Some(e)) => extension_type(e),
        _ => None,
    };
    let file_type = match file_type_of(guessed, by_extension) {
        Ok(t) => t,
        Err(e) => return Err(e),
    };
    let mut file = match read_tagged(bytes.as_slice(), file_type) {
        Ok(f) => f,
        Err(e) => return Err(e),
    };
    if !holds_primary_tag(&file) {
        let tag_type = primary_tag_type(&file);
        insert_empty_tag(&mut file, tag_type);
    }
    if !holds_primary_tag(&file) {
        return Err("no writable tag".to_string());
    }
    let _refused = write_fields(&mut file, values);
    save_tagged(&file, bytes)
}

} // verus!
