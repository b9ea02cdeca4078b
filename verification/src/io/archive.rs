//! The `.pulso` container: a ZIP archive of named entries, written and read in
//! memory with the `zip` crate. Turning the document into JSON and the archive
//! into a file on disk is the application's part.
use vstd::prelude::*;
use std::io::Cursor;
use zip::result::ZipError;
use zip::{ZipArchive, ZipWriter};
use crate::io::pulso_file::{media_entry, media_name, media_name_of, DOCUMENT_ENTRY, META_ENTRY};
use crate::model::laws::lemma_filter_keeps_all;
use crate::text::same_text;

verus! {

broadcast use vstd::seq_lib::group_seq_properties;

#[verifier::external_type_specification]
#[verifier::external_body]
#[verifier::reject_recursive_types(T)]
pub struct ExCursor<T>(Cursor<T>);

#[verifier::external_type_specification]
#[verifier::external_body]
#[verifier::reject_recursive_types(R)]
pub struct ExZipArchive<R>(ZipArchive<R>);

#[verifier::external_type_specification]
#[verifier::external_body]
pub struct ExZipError(ZipError);

#[verifier::external_type_specification]
#[verifier::external_body]
pub struct ExIoError(std::io::Error);

/// A ZIP archive being written into memory. The writer is held in a private field:
/// the parameter of `zip::ZipWriter` is bound by `std::io::Write` and
/// `std::io::Seek`, traits that no signature here can name.
#[verifier::external_body]
pub struct ArchiveWriter {
    inner: ZipWriter<Cursor<Vec<u8>>>,
}

/// An entry of an archive: its name and its data.
pub type EntryModel = (Seq<char>, Seq<u8>);

/// The entries, in the order written, that a ZIP writer holds so far: each file's
/// name and the data written into it.
pub uninterp spec fn zip_writer_entries(w: ArchiveWriter) -> Seq<(Seq<char>, Seq<u8>)>;

/// Whether every call made on a ZIP writer so far has succeeded.
pub uninterp spec fn zip_writer_intact(w: ArchiveWriter) -> bool;

/// The entries, in their order, of an opened ZIP archive: each file's name and the
/// data the crate reads from it.
pub uninterp spec fn zip_archive_entries(a: ZipArchive<Cursor<Vec<u8>>>) -> Seq<(Seq<char>, Seq<u8>)>;

/// The bytes that an opened ZIP archive reads from.
pub uninterp spec fn zip_archive_source(a: ZipArchive<Cursor<Vec<u8>>>) -> Seq<u8>;

/// What `zip::ZipArchive::new` makes of some bytes: the entries of the archive, in
/// their order, or nothing where it refuses them.
pub uninterp spec fn zip_entries_of(bytes: Seq<u8>) -> Option<Seq<(Seq<char>, Seq<u8>)>>;

/// Whether `zip::ZipArchive::by_index` opens the entry at position `i` of the
/// archive held in `bytes`.
pub uninterp spec fn zip_entry_opens(bytes: Seq<u8>, i: int) -> bool;

/// Whether the entry at position `i` of the archive held in `bytes` is opened and
/// read to its end without error.
pub uninterp spec fn zip_entry_reads(bytes: Seq<u8>, i: int) -> bool;

/// The room the entries take: four bytes a character of each name (the most that
/// UTF-8 takes) and the bytes of each entry's data.
pub open spec fn entries_size(es: Seq<EntryModel>) -> int
    decreases es.len(),
{
    if es.len() == 0 {
        0
    } else {
        entries_size(es.drop_last()) + 4 * es.last().0.len() + es.last().1.len()
    }
}

/// Entries well inside the limits of the plain ZIP format: fewer than 32768 of
/// them, taking at most 1 GiB together.
pub open spec fn within_limits(es: Seq<EntryModel>) -> bool {
    es.len() < 0x8000 && entries_size(es) <= 0x4000_0000
}

/// Calls `zip::ZipWriter::new` on an empty in-memory buffer: a writer that holds
/// no entry yet.
#[verifier::external_body]
fn zip_writer() -> (w: ArchiveWriter)
    ensures
        zip_writer_entries(w) == Seq::<EntryModel>::empty(),
        zip_writer_intact(w),
{
    ArchiveWriter { inner: ZipWriter::new(Cursor::new(Vec::new())) }
}

/// Calls `zip::ZipWriter::start_file` with deflate compression and otherwise the
/// crate's default options. Where it succeeds the writer holds one more entry, named
/// `name`, with no data yet. The crate's source refuses a name that the writer
/// already holds; on a writer in memory whose calls have all succeeded it fails on
/// nothing else while the entries stay within the format's plain limits. A name
/// longer than 65535 bytes makes it panic. What the writer holds after an error is
/// not stated.
#[verifier::external_body]
fn zip_start_file(w: &mut ArchiveWriter, name: &str) -> (r: Result<(), ZipError>)
    requires
        vstd::utf8::encode_utf8(name@).len() <= 0xFFFF,
    ensures
        r is Ok ==> zip_writer_entries(*final(w)) == zip_writer_entries(*old(w)).push(
            (name@, Seq::empty()),
        ),
        r is Ok ==> forall|k: int|
            0 <= k < zip_writer_entries(*old(w)).len() ==> #[trigger] zip_writer_entries(
                *old(w),
            )[k].0 != name@,
        r is Ok && zip_writer_intact(*old(w)) ==> zip_writer_intact(*final(w)),
        zip_writer_intact(*old(w)) && (forall|k: int|
            0 <= k < zip_writer_entries(*old(w)).len() ==> #[trigger] zip_writer_entries(
                *old(w),
            )[k].0 != name@) && within_limits(
            zip_writer_entries(*old(w)).push((name@, Seq::empty())),
        ) ==> r is Ok,
{
    let options = zip::write::SimpleFileOptions::default().compression_method(
        zip::CompressionMethod::Deflated,
    );
    w.inner.start_file(name, options)
}

/// Calls `std::io::Write::write_all` on the writer, which must hold an entry: where
/// it succeeds, `data` is appended to the entry last started. On a writer in
/// memory whose calls have all succeeded it fails on nothing while the entries stay
/// within the format's plain limits. What the writer holds after an error is not
/// stated.
#[verifier::external_body]
fn zip_write_all(w: &mut ArchiveWriter, data: &[u8]) -> (r: Result<(), std::io::Error>)
    requires
        zip_writer_entries(*old(w)).len() > 0,
    ensures
        r is Ok ==> zip_writer_entries(*final(w)) == zip_writer_entries(*old(w)).update(
            zip_writer_entries(*old(w)).len() - 1,
            (
                zip_writer_entries(*old(w)).last().0,
                zip_writer_entries(*old(w)).last().1 + data@,
            ),
        ),
        r is Ok && zip_writer_intact(*old(w)) ==> zip_writer_intact(*final(w)),
        zip_writer_intact(*old(w)) && within_limits(
            zip_writer_entries(*old(w)).update(
                zip_writer_entries(*old(w)).len() - 1,
                (
                    zip_writer_entries(*old(w)).last().0,
                    zip_writer_entries(*old(w)).last().1 + data@,
                ),
            ),
        ) ==> r is Ok,
{
    std::io::Write::write_all(&mut w.inner, data)
}

/// Calls `zip::ZipWriter::finish` and takes the buffer out of its cursor: where it
/// succeeds, the bytes of an archive that the crate opens, with the entries
/// written, in order, each of which it opens and reads back. On a writer in memory
/// whose calls have all succeeded it fails on nothing while the entries stay within
/// the format's plain limits.
#[verifier::external_body]
fn zip_finish(w: ArchiveWriter) -> (r: Result<Vec<u8>, ZipError>)
    ensures
        r matches Ok(b) ==> zip_entries_of(b@) == Some(zip_writer_entries(w)),
        r matches Ok(b) ==> forall|i: int|
            0 <= i < zip_writer_entries(w).len() ==> #[trigger] zip_entry_opens(b@, i)
                && zip_entry_reads(b@, i),
        zip_writer_intact(w) && within_limits(zip_writer_entries(w)) ==> r is Ok,
{
    match w.inner.finish() {
        Ok(cursor) => Ok(cursor.into_inner()),
        Err(e) => Err(e),
    }
}

/// Calls `zip::ZipArchive::new` on the bytes: it succeeds where the crate reads an
/// archive from them, which then holds the entries read and reads from the bytes.
#[verifier::external_body]
fn zip_open(bytes: Vec<u8>) -> (r: Result<ZipArchive<Cursor<Vec<u8>>>, ZipError>)
    ensures
        r is Ok <==> zip_entries_of(bytes@) is Some,
        r matches Ok(a) ==> zip_entries_of(bytes@) == Some(zip_archive_entries(a))
            && zip_archive_source(a) == bytes@,
{
    ZipArchive::new(Cursor::new(bytes))
}

/// Calls `zip::ZipArchive::len`: the number of entries.
#[verifier::external_body]
fn zip_len(a: &ZipArchive<Cursor<Vec<u8>>>) -> (n: usize)
    ensures
        n == zip_archive_entries(*a).len(),
{
    a.len()
}

/// Calls `zip::ZipArchive::name_for_index`: the name of the entry at `i`, if there
/// is one.
#[verifier::external_body]
fn zip_name_for_index(a: &ZipArchive<Cursor<Vec<u8>>>, i: usize) -> (r: Option<String>)
    ensures
        r is Some <==> i < zip_archive_entries(*a).len(),
        r matches Some(n) ==> n@ == zip_archive_entries(*a)[i as int].0,
{
    match a.name_for_index(i) {
        Some(name) => Some(name.to_owned()),
        None => None,
    }
}

/// Calls `zip::ZipArchive::by_index` and lets the entry go: whether the entry at
/// `i` opens. There is no entry to open past the last. The archive keeps its
/// entries and its bytes.
#[verifier::external_body]
fn zip_open_entry(a: &mut ZipArchive<Cursor<Vec<u8>>>, i: usize) -> (r: Result<(), ZipError>)
    ensures
        zip_archive_entries(*final(a)) == zip_archive_entries(*old(a)),
        zip_archive_source(*final(a)) == zip_archive_source(*old(a)),
        r is Ok <==> i < zip_archive_entries(*old(a)).len() && zip_entry_opens(
            zip_archive_source(*old(a)),
            i as int,
        ),
{
    match a.by_index(i) {
        Ok(_) => Ok(()),
        Err(e) => Err(e),
    }
}

/// Calls `zip::ZipArchive::by_index` and reads the entry it gives to the end with
/// `std::io::Read::read_to_end`: where both succeed, the data of the entry at `i`.
/// The entry, a `zip::read::ZipFile`, has a parameter bound by `std::io::Read`, a
/// trait that no signature here can name, so it is read where it is opened. The
/// archive keeps its entries and its bytes; the crate checks each entry's checksum
/// and fails on a damaged one.
#[verifier::external_body]
fn zip_read_entry(a: &mut ZipArchive<Cursor<Vec<u8>>>, i: usize) -> (r: Result<Vec<u8>, ZipError>)
    ensures
        zip_archive_entries(*final(a)) == zip_archive_entries(*old(a)),
        zip_archive_source(*final(a)) == zip_archive_source(*old(a)),
        r is Ok <==> i < zip_archive_entries(*old(a)).len() && zip_entry_reads(
            zip_archive_source(*old(a)),
            i as int,
        ),
        r matches Ok(d) ==> d@ == zip_archive_entries(*old(a))[i as int].1,
{
    let mut file = a.by_index(i)?;
    let mut data = Vec::new();
    std::io::Read::read_to_end(&mut file, &mut data)?;
    Ok(data)
}

// ---------------------------------------------------------------------------
// The entries of a .pulso file
// ---------------------------------------------------------------------------

/// Why a `.pulso` archive could not be written or read.
#[derive(Debug)]
pub enum ArchiveError {
    /// The `zip` crate failed.
    Zip(ZipError),
    /// Writing into the archive failed.
    Write(std::io::Error),
    /// The archive holds no `document.json`.
    MissingDocument,
}

/// The names and data of a list of media files.
pub open spec fn media_model(media: Seq<(String, Vec<u8>)>) -> Seq<EntryModel> {
    media.map_values(|m: (String, Vec<u8>)| (m.0@, m.1@))
}

/// The entries of a `.pulso` file, in the order written: the document, the
/// metadata, then each media file under `media/`.
pub open spec fn pulso_entries(document: Seq<u8>, meta: Seq<u8>, media: Seq<EntryModel>) -> Seq<
    EntryModel,
> {
    seq![("document.json"@, document), ("meta.json"@, meta)] + media.map_values(
        |m: EntryModel| ("media/"@ + m.0, m.1),
    )
}

/// The position of the first entry named `name`, or -1.
pub open spec fn entry_index(entries: Seq<EntryModel>, name: Seq<char>) -> int
    decreases entries.len(),
{
    if entries.len() == 0 {
        -1
    } else if entries.last().0 == name && entry_index(entries.drop_last(), name) < 0 {
        entries.len() - 1
    } else {
        entry_index(entries.drop_last(), name)
    }
}

/// The data of the entry `document.json`, if there is one.
pub open spec fn document_entry(entries: Seq<EntryModel>) -> Option<Seq<u8>> {
    let i = entry_index(entries, "document.json"@);
    if i >= 0 {
        Some(entries[i].1)
    } else {
        None
    }
}

/// Whether an entry is a media file: its name is `media/` and more.
pub open spec fn is_media_entry(e: EntryModel) -> bool {
    media_name_of(e.0) is Some
}

/// The media files of an archive, in order: each entry under `media/` with a name
/// after it, by that name.
pub open spec fn media_entries(entries: Seq<EntryModel>) -> Seq<EntryModel> {
    entries.filter(|e: EntryModel| is_media_entry(e)).map_values(
        |e: EntryModel| (media_name_of(e.0)->0, e.1),
    )
}

proof fn lemma_entry_index(entries: Seq<EntryModel>, name: Seq<char>)
    ensures
        -1 <= entry_index(entries, name) < entries.len(),
        entry_index(entries, name) >= 0 ==> entries[entry_index(entries, name)].0 == name,
        forall|k: int|
            0 <= k < entries.len() && (entry_index(entries, name) < 0 || k < entry_index(
                entries,
                name,
            )) ==> #[trigger] entries[k].0 != name,
    decreases entries.len(),
{
    if entries.len() > 0 {
        lemma_entry_index(entries.drop_last(), name);
        assert forall|k: int| 0 <= k < entries.len() - 1 implies #[trigger] entries[k] == entries.drop_last()[k] by {}
    }
}

/// Whether no two entries share a name.
pub open spec fn names_distinct(es: Seq<EntryModel>) -> bool {
    forall|i: int, j: int| #![trigger es[i], es[j]] 0 <= i < j < es.len() ==> es[i].0 != es[j].0
}

proof fn lemma_push_distinct(es: Seq<EntryModel>, e: EntryModel)
    requires
        names_distinct(es),
        forall|k: int| 0 <= k < es.len() ==> #[trigger] es[k].0 != e.0,
    ensures
        names_distinct(es.push(e)),
{
    let t = es.push(e);
    assert forall|i: int, j: int| 0 <= i < j < t.len() implies #[trigger] t[i].0 != #[trigger] t[j].0 by {
        if j < es.len() {
            assert(t[i] == es[i] && t[j] == es[j]);
        } else {
            assert(t[i] == es[i] && t[j] == e);
        }
    }
}

/// The media files of a `.pulso` file that has no two entries of one name have no
/// two names alike.
proof fn lemma_media_names_distinct(document: Seq<u8>, meta: Seq<u8>, media: Seq<EntryModel>)
    requires
        names_distinct(pulso_entries(document, meta, media)),
    ensures
        names_distinct(media),
{
    let es = pulso_entries(document, meta, media);
    assert forall|i: int, j: int| 0 <= i < j < media.len() implies #[trigger] media[i].0 != #[trigger] media[j].0 by {
        assert(es[2 + i].0 == "media/"@ + media[i].0);
        assert(es[2 + j].0 == "media/"@ + media[j].0);
        assert(es[2 + i].0 != es[2 + j].0);
    }
}

/// Media files of distinct names make a `.pulso` file with no two entries of one name.
proof fn lemma_pulso_names_distinct(document: Seq<u8>, meta: Seq<u8>, media: Seq<EntryModel>)
    requires
        names_distinct(media),
    ensures
        names_distinct(pulso_entries(document, meta, media)),
{
    let es = pulso_entries(document, meta, media);
    reveal_strlit("document.json");
    reveal_strlit("meta.json");
    reveal_strlit("media/");
    assert forall|i: int, j: int| 0 <= i < j < es.len() implies #[trigger] es[i].0 != #[trigger] es[j].0 by {
        if j >= 2 {
            assert(es[j].0 == "media/"@ + media[j - 2].0);
            if i == 0 {
                assert(es[j].0[0] != es[i].0[0]);
            } else if i == 1 {
                assert(es[j].0[2] != es[i].0[2]);
            } else {
                assert(es[i].0 == "media/"@ + media[i - 2].0);
                if es[i].0 == es[j].0 {
                    assert(es[i].0.skip(6) =~= media[i - 2].0);
                    assert(es[j].0.skip(6) =~= media[j - 2].0);
                }
            }
        } else {
            assert(es[j].0[0] != es[i].0[0]);
        }
    }
}

/// UTF-8 takes at most four bytes a character.
proof fn lemma_utf8_len(s: Seq<char>)
    ensures
        vstd::utf8::encode_utf8(s).len() <= 4 * s.len(),
    decreases s.len(),
{
    if s.len() > 0 {
        lemma_utf8_len(s.drop_first());
    }
}

proof fn lemma_size_push(es: Seq<EntryModel>, e: EntryModel)
    ensures
        entries_size(es.push(e)) == entries_size(es) + 4 * e.0.len() + e.1.len(),
{
    assert(es.push(e).drop_last() =~= es);
}

proof fn lemma_size_take(es: Seq<EntryModel>, k: int)
    requires
        0 <= k <= es.len(),
    ensures
        0 <= entries_size(es.take(k)) <= entries_size(es),
    decreases es.len(),
{
    if k == es.len() {
        assert(es.take(k) =~= es);
        if es.len() > 0 {
            lemma_size_take(es.drop_last(), 0);
        }
    } else {
        assert(es.take(k) =~= es.drop_last().take(k));
        lemma_size_take(es.drop_last(), k);
    }
}

/// The entry at `k` of entries with distinct names, within the limits, starts
/// under a fresh name and keeps the entries within the limits.
proof fn lemma_step(total: Seq<EntryModel>, k: int)
    requires
        names_distinct(total),
        within_limits(total),
        0 <= k < total.len(),
    ensures
        forall|j: int| 0 <= j < total.take(k).len() ==> #[trigger] total.take(k)[j].0 != total[k].0,
        within_limits(total.take(k).push((total[k].0, Seq::empty()))),
        within_limits(total.take(k + 1)),
        total.take(k).push((total[k].0, Seq::empty())).update(
            k,
            (total[k].0, Seq::<u8>::empty() + total[k].1),
        ) == total.take(k + 1),
{
    assert(total.take(k + 1) =~= total.take(k).push(total[k]));
    lemma_size_push(total.take(k), total[k]);
    lemma_size_push(total.take(k), (total[k].0, Seq::empty()));
    lemma_size_take(total, k + 1);
    lemma_size_take(total, k);
    assert forall|j: int| 0 <= j < total.take(k).len() implies #[trigger] total.take(k)[j].0 != total[k].0 by {
        assert(total.take(k)[j] == total[j]);
    }
    assert(total.take(k).push((total[k].0, Seq::empty())).update(
        k,
        (total[k].0, Seq::<u8>::empty() + total[k].1),
    ) =~= total.take(k + 1));
}

/// The bytes of a `.pulso` archive written for a document, its metadata and media
/// files: the crate opens them and finds those entries, each of which it opens and
/// reads.
pub open spec fn packed(bytes: Seq<u8>, document: Seq<u8>, meta: Seq<u8>, media: Seq<EntryModel>) -> bool {
    &&& zip_entries_of(bytes) == Some(pulso_entries(document, meta, media))
    &&& forall|i: int|
        0 <= i < pulso_entries(document, meta, media).len() ==> #[trigger] zip_entry_opens(bytes, i)
            && zip_entry_reads(bytes, i)
}

/// Writes the entries of a `.pulso` file into a ZIP archive in memory: the
/// document's JSON, the metadata's JSON, and each media file with its name. The
/// `zip` crate refuses a second entry of a name it already holds, so media files
/// of one name are never packed; media files of distinct names, within the plain
/// limits of the format, always are.
pub fn pack(document: &[u8], meta: &[u8], media: &Vec<(String, Vec<u8>)>) -> (r: Result<
    Vec<u8>,
    ArchiveError,
>)
    requires
        forall|i: int|
            0 <= i < media@.len() ==> vstd::utf8::encode_utf8("media/"@ + #[trigger] media@[i].0@).len()
                <= 0xFFFF,
    ensures
        r matches Ok(b) ==> packed(b@, document@, meta@, media_model(media@)),
        r is Ok ==> names_distinct(media_model(media@)),
        names_distinct(media_model(media@)) && within_limits(
            pulso_entries(document@, meta@, media_model(media@)),
        ) ==> r is Ok,
        r matches Err(e) ==> !(e is MissingDocument),
{
    let ghost total = pulso_entries(document@, meta@, media_model(media@));
    let ghost ok = names_distinct(media_model(media@)) && within_limits(total);
    proof {
        reveal_strlit("document.json");
        reveal_strlit("meta.json");
        lemma_utf8_len(DOCUMENT_ENTRY@);
        lemma_utf8_len(META_ENTRY@);
        if ok {
            lemma_pulso_names_distinct(document@, meta@, media_model(media@));
            lemma_step(total, 0);
            lemma_step(total, 1);
        }
        assert(total.take(0) =~= Seq::<EntryModel>::empty());
        assert(total[0] == ("document.json"@, document@));
        assert(total[1] == ("meta.json"@, meta@));
    }
    let mut w = zip_writer();
    match zip_start_file(&mut w, DOCUMENT_ENTRY) {
        Ok(()) => {},
        Err(e) => return Err(ArchiveError::Zip(e)),
    }
    let ghost first = zip_writer_entries(w);
    match zip_write_all(&mut w, document) {
        Ok(()) => {},
        Err(e) => return Err(ArchiveError::Write(e)),
    }
    proof {
        assert(zip_writer_entries(w) =~= total.take(1));
    }
    let ghost before_meta = zip_writer_entries(w);
    match zip_start_file(&mut w, META_ENTRY) {
        Ok(()) => {},
        Err(e) => return Err(ArchiveError::Zip(e)),
    }
    proof {
        assert(before_meta.len() == 1 && before_meta[0].0 == first[0].0);
        assert(zip_writer_entries(w)[0].0 != zip_writer_entries(w)[1].0);
    }
    match zip_write_all(&mut w, meta) {
        Ok(()) => {},
        Err(e) => return Err(ArchiveError::Write(e)),
    }
    assert(zip_writer_entries(w) =~= total.take(2));
    assert(names_distinct(zip_writer_entries(w)));
    let n = media.len();
    let mut i: usize = 0;
    while i < n
        invariant
            n == media@.len(),
            i <= n,
            total == pulso_entries(document@, meta@, media_model(media@)),
            ok == (names_distinct(media_model(media@)) && within_limits(total)),
            ok ==> names_distinct(total),
            forall|k: int|
                0 <= k < media@.len() ==> vstd::utf8::encode_utf8(
                    "media/"@ + #[trigger] media@[k].0@,
                ).len() <= 0xFFFF,
            zip_writer_entries(w) == total.take(i + 2),
            zip_writer_intact(w),
            names_distinct(zip_writer_entries(w)),
        decreases n - i,
    {
        let entry = media_entry(media[i].0.as_str());
        let ghost before = zip_writer_entries(w);
        proof {
            assert(total[i + 2] == (entry@, media@[i as int].1@));
            if ok {
                lemma_step(total, i + 2);
            }
        }
        match zip_start_file(&mut w, entry.as_str()) {
            Ok(()) => {},
            Err(e) => return Err(ArchiveError::Zip(e)),
        }
        proof {
            lemma_push_distinct(before, (entry@, Seq::empty()));
        }
        let ghost started = zip_writer_entries(w);
        proof {
            assert(started.update(
                started.len() - 1,
                (started.last().0, started.last().1 + media@[i as int].1@),
            ) =~= total.take(i + 3));
        }
        match zip_write_all(&mut w, media[i].1.as_slice()) {
            Ok(()) => {},
            Err(e) => return Err(ArchiveError::Write(e)),
        }
        proof {
            let now = zip_writer_entries(w);
            assert forall|a: int, b: int| 0 <= a < b < now.len() implies #[trigger] now[a].0 != #[trigger] now[b].0 by {
                assert(now[a].0 == started[a].0 && now[b].0 == started[b].0);
            }
        }
        i = i + 1;
    }
    assert(total.take(n + 2) =~= total);
    proof {
        lemma_media_names_distinct(document@, meta@, media_model(media@));
    }
    match zip_finish(w) {
        Ok(bytes) => Ok(bytes),
        Err(e) => Err(ArchiveError::Zip(e)),
    }
}

/// Opens the ZIP archive held in `bytes`: it opens where the `zip` crate reads an
/// archive from them.
pub fn open_archive(bytes: Vec<u8>) -> (r: Result<ZipArchive<Cursor<Vec<u8>>>, ArchiveError>)
    ensures
        r is Ok <==> zip_entries_of(bytes@) is Some,
        r matches Ok(a) ==> zip_entries_of(bytes@) == Some(zip_archive_entries(a))
            && zip_archive_source(a) == bytes@,
        r matches Err(e) ==> e is Zip,
{
    match zip_open(bytes) {
        Ok(a) => Ok(a),
        Err(e) => Err(ArchiveError::Zip(e)),
    }
}

/// The position of the first entry named `name`.
fn find_entry(archive: &ZipArchive<Cursor<Vec<u8>>>, name: &str) -> (r: Option<usize>)
    ensures
        r matches Some(i) ==> i == entry_index(zip_archive_entries(*archive), name@),
        r is None ==> entry_index(zip_archive_entries(*archive), name@) < 0,
{
    let ghost es = zip_archive_entries(*archive);
    proof {
        lemma_entry_index(es, name@);
    }
    let n = zip_len(archive);
    let mut i: usize = 0;
    while i < n
        invariant
            n == es.len(),
            es == zip_archive_entries(*archive),
            i <= n,
            forall|k: int| 0 <= k < i ==> #[trigger] es[k].0 != name@,
            -1 <= entry_index(es, name@) < es.len(),
            entry_index(es, name@) >= 0 ==> es[entry_index(es, name@)].0 == name@,
            forall|k: int|
                0 <= k < es.len() && (entry_index(es, name@) < 0 || k < entry_index(es, name@))
                    ==> #[trigger] es[k].0 != name@,
        decreases n - i,
    {
        match zip_name_for_index(archive, i) {
            Some(entry) => {
                if same_text(entry.as_str(), name) {
                    return Some(i);
                }
            },
            None => {},
        }
        i = i + 1;
    }
    None
}

/// Reads the data of the entry `document.json`: it fails where there is no such
/// entry, or where it cannot be read.
pub fn read_document(archive: &mut ZipArchive<Cursor<Vec<u8>>>) -> (r: Result<
    Vec<u8>,
    ArchiveError,
>)
    ensures
        zip_archive_entries(*final(archive)) == zip_archive_entries(*old(archive)),
        zip_archive_source(*final(archive)) == zip_archive_source(*old(archive)),
        r is Ok <==> document_entry(zip_archive_entries(*old(archive))) is Some && zip_entry_reads(
            zip_archive_source(*old(archive)),
            entry_index(zip_archive_entries(*old(archive)), "document.json"@),
        ),
        r matches Ok(d) ==> document_entry(zip_archive_entries(*old(archive))) == Some(d@),
        r matches Err(e) ==> (e is MissingDocument <==> document_entry(
            zip_archive_entries(*old(archive)),
        ) is None),
        r matches Err(e) ==> !(e is Write),
{
    proof {
        reveal_strlit("document.json");
        lemma_entry_index(zip_archive_entries(*archive), "document.json"@);
    }
    match find_entry(archive, DOCUMENT_ENTRY) {
        Some(i) => match zip_read_entry(archive, i) {
            Ok(data) => Ok(data),
            Err(e) => Err(ArchiveError::Zip(e)),
        },
        None => Err(ArchiveError::MissingDocument),
    }
}

/// Whether every entry of an archive opens, and every media entry reads.
pub open spec fn media_readable(entries: Seq<EntryModel>, bytes: Seq<u8>) -> bool {
    forall|i: int|
        0 <= i < entries.len() ==> #[trigger] zip_entry_opens(bytes, i) && (is_media_entry(
            entries[i],
        ) ==> zip_entry_reads(bytes, i))
}

/// Reads the media files of an archive: each entry under `media/` with a name after
/// it, by that name, in the archive's order. Every entry is opened on the way, and
/// reading fails at the first entry that does not open, or media entry that does
/// not read.
pub fn read_media(archive: &mut ZipArchive<Cursor<Vec<u8>>>) -> (r: Result<
    Vec<(String, Vec<u8>)>,
    ArchiveError,
>)
    ensures
        zip_archive_entries(*final(archive)) == zip_archive_entries(*old(archive)),
        zip_archive_source(*final(archive)) == zip_archive_source(*old(archive)),
        r is Ok <==> media_readable(
            zip_archive_entries(*old(archive)),
            zip_archive_source(*old(archive)),
        ),
        r matches Ok(m) ==> media_model(m@) == media_entries(zip_archive_entries(*old(archive))),
        r matches Err(e) ==> e is Zip,
{
    let ghost es = zip_archive_entries(*archive);
    let ghost src = zip_archive_source(*archive);
    let ghost keep = |e: EntryModel| is_media_entry(e);
    let ghost rename = |e: EntryModel| (media_name_of(e.0)->0, e.1);
    let n = zip_len(archive);
    let mut media: Vec<(String, Vec<u8>)> = Vec::new();
    let mut i: usize = 0;
    while i < n
        invariant
            n == es.len(),
            es == zip_archive_entries(*archive),
            es == zip_archive_entries(*old(archive)),
            src == zip_archive_source(*archive),
            src == zip_archive_source(*old(archive)),
            i <= n,
            keep == (|e: EntryModel| is_media_entry(e)),
            rename == (|e: EntryModel| (media_name_of(e.0)->0, e.1)),
            media_model(media@) == es.take(i as int).filter(keep).map_values(rename),
            forall|k: int|
                0 <= k < i ==> #[trigger] zip_entry_opens(src, k) && (is_media_entry(es[k])
                    ==> zip_entry_reads(src, k)),
        decreases n - i,
    {
        let ghost before = media_model(media@);
        proof {
            assert(es.take(i + 1) =~= es.take(i as int).push(es[i as int]));
            es.take(i as int).lemma_filter_push(es[i as int], keep);
        }
        match zip_open_entry(archive, i) {
            Ok(()) => {},
            Err(e) => return Err(ArchiveError::Zip(e)),
        }
        match zip_name_for_index(archive, i) {
            Some(entry) => match media_name(entry.as_str()) {
                Some(short) => {
                    match zip_read_entry(archive, i) {
                        Ok(data) => {
                            media.push((short, data));
                            proof {
                                assert(media_model(media@) =~= before.push(rename(es[i as int])));
                                assert(es.take(i as int).filter(keep).push(es[i as int]).map_values(
                                    rename,
                                ) =~= es.take(i as int).filter(keep).map_values(rename).push(
                                    rename(es[i as int]),
                                ));
                            }
                        },
                        Err(e) => return Err(ArchiveError::Zip(e)),
                    }
                },
                None => {},
            },
            None => {},
        }
        assert forall|k: int| 0 <= k < i + 1 implies #[trigger] zip_entry_opens(src, k) && (
        is_media_entry(es[k]) ==> zip_entry_reads(src, k)) by {
            if k == i {
                assert(zip_entry_opens(src, i as int));
            }
        }
        i = i + 1;
    }
    assert(es.take(n as int) =~= es);
    Ok(media)
}

/// What a `.pulso` file gives back: the bytes that `pack` writes for a document,
/// its metadata and media files with names open as an archive from which
/// `read_document` reads that document and `read_media` reads those media files.
pub proof fn lemma_pack_then_read(
    bytes: Seq<u8>,
    document: Seq<u8>,
    meta: Seq<u8>,
    media: Seq<EntryModel>,
)
    requires
        packed(bytes, document, meta, media),
        forall|k: int| 0 <= k < media.len() ==> #[trigger] media[k].0.len() > 0,
    ensures
        zip_entries_of(bytes) == Some(pulso_entries(document, meta, media)),
        document_entry(pulso_entries(document, meta, media)) == Some(document),
        zip_entry_reads(bytes, entry_index(pulso_entries(document, meta, media), "document.json"@)),
        media_entries(pulso_entries(document, meta, media)) == media,
        media_readable(pulso_entries(document, meta, media), bytes),
{
    let es = pulso_entries(document, meta, media);
    reveal_strlit("document.json");
    reveal_strlit("meta.json");
    reveal_strlit("media/");
    lemma_entry_index(es, "document.json"@);
    assert(es[0].0 == "document.json"@);
    assert(entry_index(es, "document.json"@) == 0);
    assert(zip_entry_opens(bytes, 0) && zip_entry_reads(bytes, 0));
    let keep = |e: EntryModel| is_media_entry(e);
    let rename = |e: EntryModel| (media_name_of(e.0)->0, e.1);
    let tail = media.map_values(|m: EntryModel| ("media/"@ + m.0, m.1));
    assert(!is_media_entry(es[0])) by {
        assert(es[0].0.take(6)[0] == 'd');
    }
    assert(!is_media_entry(es[1])) by {
        assert(es[1].0.take(6)[2] == 't');
    }
    assert forall|k: int| 0 <= k < tail.len() implies #[trigger] is_media_entry(tail[k]) && rename(tail[k]) == media[k] by {
        assert(tail[k].0.take(6) =~= "media/"@);
        assert(tail[k].0.skip(6) =~= media[k].0);
    }
    assert(tail.filter(keep) =~= tail) by {
        lemma_filter_keeps_all(tail, keep);
    }
    assert(es =~= seq![es[0], es[1]] + tail);
    assert(es.filter(keep) =~= tail) by {
        Seq::filter_distributes_over_add(seq![es[0], es[1]], tail, keep);
        assert(seq![es[0], es[1]].filter(keep) =~= Seq::<EntryModel>::empty()) by {
            reveal_with_fuel(Seq::filter, 3);
        }
    }
    assert(tail.map_values(rename) =~= media);
}

} // verus!
