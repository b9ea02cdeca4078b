use pulso::io::archive::{open_archive, pack, read_document, read_media, ArchiveError};
use pulso::io::media::media_file_name;
use pulso::io::pulso_file::{
    check_schema, media_entry, media_key, media_name, FormatError, APP_NAME, DOCUMENT_ENTRY,
    FORMAT_VERSION, META_ENTRY,
};
use pulso::io::recovery::{directory, join_path, latest, snapshot_path};

#[test]
fn media_entries_round_trip() {
    assert_eq!(media_entry("abc123.png"), "media/abc123.png");
    assert_eq!(media_name("media/abc123.png"), Some("abc123.png".to_string()));
    assert_eq!(media_name("media/"), None);
    assert_eq!(media_name("document.json"), None);
    assert_eq!(media_key("media/abc123.png"), "abc123.png");
    assert_eq!(media_key("abc123.png"), "abc123.png");
    assert_eq!(media_key("media/"), "");
}

#[test]
fn format_constants() {
    assert_eq!(DOCUMENT_ENTRY, "document.json");
    assert_eq!(META_ENTRY, "meta.json");
    assert_eq!(APP_NAME, "Pulso");
    assert_eq!(FORMAT_VERSION, 1);
}

#[test]
fn only_schema_version_one_is_read() {
    assert_eq!(check_schema(1), Ok(()));
    assert_eq!(check_schema(2), Err(FormatError::UnsupportedSchema(2)));
    assert_eq!(check_schema(0), Err(FormatError::UnsupportedSchema(0)));
}

#[test]
fn media_files_are_named_by_their_digest() {
    assert_eq!(
        media_file_name(b"abc", Some("PNG")),
        "ba7816bf8f01cfea414140de5dae2223b00361a396177a9cb410ff61f20015ad.png"
    );
    assert_eq!(
        media_file_name(b"", None),
        "e3b0c44298fc1c149afbf4c8996fb92427ae41e4649b934ca495991b7852b855.bin"
    );
}

#[test]
fn recovery_copy_is_offered_when_not_from_the_future() {
    assert_eq!(latest("p", Some(5), 10), Some("p"));
    assert_eq!(latest("p", Some(10), 10), Some("p"));
    assert_eq!(latest("p", Some(11), 10), None);
    assert_eq!(latest("p", None, 10), None);
    assert_eq!(latest("p", Some(-3), 0), Some("p"));
}

#[test]
fn recovery_copy_lives_in_the_local_data_folder() {
    assert_eq!(
        directory(Some("/home/ana/.local/share"), "/tmp"),
        "/home/ana/.local/share/pulso/recovery"
    );
    assert_eq!(directory(None, "/tmp"), "/tmp/pulso/recovery");
    assert_eq!(directory(None, "/tmp/"), "/tmp/pulso/recovery");
    assert_eq!(
        snapshot_path("/tmp/pulso/recovery"),
        "/tmp/pulso/recovery/autosave.pulso"
    );
}

#[test]
fn paths_are_joined_with_one_separator() {
    assert_eq!(join_path("a", "b"), "a/b");
    assert_eq!(join_path("a/", "b"), "a/b");
    assert_eq!(join_path("", "b"), "b");
    assert_eq!(join_path("/", "b"), "/b");
}

#[test]
fn pulso_archive_round_trip_keeps_document_and_media() {
    let document = b"{\"schemaVersion\": 1}".to_vec();
    let meta = b"{\"app\": \"Pulso\", \"formatVersion\": 1}".to_vec();
    let media = vec![
        ("abc123.png".to_string(), vec![1, 2, 3, 4]),
        ("fotos/d.jpg".to_string(), vec![]),
    ];
    let bytes = pack(&document, &meta, &media).unwrap();
    let mut archive = open_archive(bytes).unwrap();
    assert_eq!(archive.len(), 4);
    assert_eq!(archive.name_for_index(0), Some("document.json"));
    assert_eq!(archive.name_for_index(1), Some("meta.json"));
    assert_eq!(archive.name_for_index(2), Some("media/abc123.png"));
    assert_eq!(read_document(&mut archive).unwrap(), document);
    assert_eq!(read_media(&mut archive).unwrap(), media);
}

#[test]
fn media_without_a_name_is_not_read_back() {
    let bytes = pack(b"{}", b"{}", &vec![(String::new(), vec![9])]).unwrap();
    let mut archive = open_archive(bytes).unwrap();
    assert_eq!(read_media(&mut archive).unwrap(), Vec::<(String, Vec<u8>)>::new());
}

#[test]
fn duplicate_media_names_are_refused() {
    let media = vec![("a.png".to_string(), vec![1]), ("a.png".to_string(), vec![2])];
    assert!(matches!(pack(b"{}", b"{}", &media), Err(ArchiveError::Zip(_))));
}

#[test]
fn archive_without_document_is_refused() {
    let mut writer = zip::ZipWriter::new(std::io::Cursor::new(Vec::new()));
    writer
        .start_file("meta.json", zip::write::SimpleFileOptions::default())
        .unwrap();
    std::io::Write::write_all(&mut writer, b"{}").unwrap();
    let bytes = writer.finish().unwrap().into_inner();
    let mut archive = open_archive(bytes).unwrap();
    assert!(matches!(read_document(&mut archive), Err(ArchiveError::MissingDocument)));
}

#[test]
fn bytes_that_are_no_archive_are_refused() {
    assert!(matches!(open_archive(b"not a zip".to_vec()), Err(ArchiveError::Zip(_))));
}

#[test]
fn an_entry_that_does_not_open_stops_the_media() {
    let bytes = pack(b"{}", b"{}", &vec![("a.png".to_string(), vec![1, 2, 3])]).unwrap();
    let mut damaged = bytes.clone();
    let headers: Vec<usize> = (0..damaged.len() - 3)
        .filter(|&i| damaged[i..i + 4] == [0x50, 0x4b, 0x03, 0x04])
        .collect();
    assert_eq!(headers.len(), 3);
    damaged[headers[1]] = 0;
    let mut archive = open_archive(damaged).unwrap();
    assert!(read_document(&mut archive).is_ok());
    assert!(matches!(read_media(&mut archive), Err(ArchiveError::Zip(_))));
    let mut archive = open_archive(bytes).unwrap();
    assert_eq!(read_media(&mut archive).unwrap(), vec![("a.png".to_string(), vec![1, 2, 3])]);
}
