use nd_lyrics::storage::{library_id_bytes, stored_library_id, LyricsStorage, StoredKind};

#[test]
fn test_kind_subdir() {
    assert_eq!(StoredKind::Synchronized.subdir(), "synchronized");
    assert_eq!(StoredKind::Plain.subdir(), "plain");
}

#[test]
fn test_lrc_path_structure() {
    let storage = LyricsStorage {
        lyrics_dir: "/music/_lyrics".to_string(),
    };

    let path = storage.lrc_path("track123", StoredKind::Plain);

    assert_eq!(path, "/music/_lyrics/plain/track123.lrc");
}

#[test]
fn a_store_lives_in_the_lyrics_directory_of_its_library() {
    let storage = LyricsStorage::new("/music");
    assert_eq!(storage.lyrics_dir, "/music/_lyrics");
    assert_eq!(
        storage.lrc_path("t", StoredKind::Synchronized),
        "/music/_lyrics/synchronized/t.lrc"
    );
    assert_eq!(LyricsStorage::new("/music/").lyrics_dir, "/music/_lyrics");
}

#[test]
fn a_library_id_is_kept_as_four_little_endian_bytes() {
    for id in [0i32, 1, 258, -1, i32::MIN, i32::MAX, 123456789] {
        let bytes = library_id_bytes(id);
        assert_eq!(bytes, id.to_le_bytes().to_vec());
        assert_eq!(stored_library_id(&bytes), Some(id));
    }
    assert_eq!(stored_library_id(&[1, 0, 0]), None);
    assert_eq!(stored_library_id(&[1, 0, 0, 0, 0]), None);
    assert_eq!(stored_library_id(&[0xff, 0xff, 0xff, 0xff]), Some(-1));
}
