//! The `.pulso` format: a ZIP archive holding `document.json`, `meta.json` and
//! the media under `media/`. The archive and the JSON are read and written by
//! the application; this module holds the format's own rules.
use vstd::prelude::*;
use crate::text::starts_with;

verus! {

/// The entry that holds the document.
pub const DOCUMENT_ENTRY: &'static str = "document.json";
/// The entry that holds the file's metadata.
pub const META_ENTRY: &'static str = "meta.json";
/// The folder of the media entries.
pub const MEDIA_PREFIX: &'static str = "media/";
/// The application named in the metadata.
pub const APP_NAME: &'static str = "Pulso";
/// The version of the file format written in the metadata.
pub const FORMAT_VERSION: u32 = 1;
/// The only document schema version that is read.
pub const SCHEMA_VERSION: u32 = 1;

/// Why a file cannot be opened.
#[derive(Debug, Clone, Copy, PartialEq, Eq, Structural)]
pub enum FormatError {
    /// The document is written in another schema version.
    UnsupportedSchema(u32),
}

/// Accepts the documents of schema version 1.
pub fn check_schema(schema_version: u32) -> (r: Result<(), FormatError>)
    ensures
        r is Ok <==> schema_version == SCHEMA_VERSION,
        r matches Err(e) ==> e == FormatError::UnsupportedSchema(schema_version),
{
    if schema_version != SCHEMA_VERSION {
        Err(FormatError::UnsupportedSchema(schema_version))
    } else {
        Ok(())
    }
}

/// The archive entry that holds the media file `name`.
pub fn media_entry(name: &str) -> (r: String)
    ensures
        r@ == "media/"@ + name@,
{
    let mut r = String::from_str(MEDIA_PREFIX);
    r.append(name);
    r
}

/// The media name of an archive entry: what follows `media/`, where something does.
pub open spec fn media_name_of(entry: Seq<char>) -> Option<Seq<char>> {
    if entry.len() > 6 && entry.take(6) == "media/"@ {
        Some(entry.skip(6))
    } else {
        None
    }
}

pub fn media_name(entry: &str) -> (r: Option<String>)
    ensures
        r matches Some(n) ==> media_name_of(entry@) == Some(n@),
        r is None ==> media_name_of(entry@) is None,
{
    proof {
        reveal_strlit("media/");
    }
    if starts_with(entry, MEDIA_PREFIX) {
        let len = entry.unicode_len();
        if len > 6 {
            let rest = entry.substring_char(6, len);
            assert(entry@.skip(6) =~= entry@.subrange(6, len as int));
            return Some(rest.to_owned());
        }
    }
    None
}

/// The key under which an image source is looked up among the media: the source
/// without its `media/` folder, where it has one.
pub open spec fn media_key_of(src: Seq<char>) -> Seq<char> {
    if src.len() >= 6 && src.take(6) == "media/"@ {
        src.skip(6)
    } else {
        src
    }
}

pub fn media_key(src: &str) -> (r: String)
    ensures
        r@ == media_key_of(src@),
{
    proof {
        reveal_strlit("media/");
    }
    if starts_with(src, MEDIA_PREFIX) {
        let len = src.unicode_len();
        let rest = src.substring_char(6, len);
        assert(src@.skip(6) =~= src@.subrange(6, len as int));
        rest.to_owned()
    } else {
        src.to_owned()
    }
}

/// A media file saved under its name is read back under the same name, and an image
/// that refers to it finds it.
pub proof fn lemma_media_round_trip(name: Seq<char>)
    requires
        name.len() > 0,
    ensures
        media_name_of("media/"@ + name) == Some(name),
        media_key_of("media/"@ + name) == name,
{
    reveal_strlit("media/");
    assert(("media/"@ + name).take(6) =~= "media/"@);
    assert(("media/"@ + name).skip(6) =~= name);
}

} // verus!
