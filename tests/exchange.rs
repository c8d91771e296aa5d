use metaflac::block::VorbisComment;
use tagsync::attributes::{Attributes, FileAttributes, Id3Frames};
use tagsync::error::{SyncError, TableError};
use tagsync::table::{decode_table, encode_table, header_fields, index_by_path};
use tagsync::text::{join_with_commas, same_text, split_on_commas};

fn full() -> FileAttributes {
    FileAttributes {
        path: "/abs/file.flac".to_string(),
        album: Some("Some Album".to_string()),
        artist: vec!["Artist One".to_string(), "Artist Two".to_string()],
        title: Some("Song".to_string()),
        track: Some(3),
        year: Some(1999),
    }
}

fn empty_record(path: &str) -> FileAttributes {
    FileAttributes {
        path: path.to_string(),
        album: None,
        artist: vec![],
        title: None,
        track: None,
        year: None,
    }
}

fn strings(v: &[&str]) -> Vec<String> {
    v.iter().map(|s| s.to_string()).collect()
}

#[test]
fn row_round_trip_full_record() {
    let f = full();
    let row = f.to_row();
    assert_eq!(
        row,
        strings(&["/abs/file.flac", "Some Album", "Artist One,Artist Two", "Song", "3", "1999"])
    );
    let back = FileAttributes::from_row(&row, 0).unwrap();
    assert_eq!(back.path, f.path);
    assert_eq!(back.album, f.album);
    assert_eq!(back.artist, f.artist);
    assert_eq!(back.title, f.title);
    assert_eq!(back.track, f.track);
    assert_eq!(back.year, f.year);
}

#[test]
fn negative_year_round_trip() {
    let mut f = full();
    f.year = Some(-44);
    f.track = Some(4294967295);
    let row = f.to_row();
    assert_eq!(row[4], "4294967295");
    assert_eq!(row[5], "-44");
    let back = FileAttributes::from_row(&row, 0).unwrap();
    assert_eq!(back.year, Some(-44));
    assert_eq!(back.track, Some(4294967295));
}

#[test]
fn comma_in_artist_not_preserved() {
    let mut f = full();
    f.artist = vec!["Crosby, Stills".to_string()];
    let back = FileAttributes::from_row(&f.to_row(), 0).unwrap();
    assert_ne!(back.artist, f.artist);
    assert_eq!(back.artist, strings(&["Crosby", " Stills"]));
}

#[test]
fn absent_fields_export_empty_and_import_absent() {
    let f = empty_record("x.flac");
    let row = f.to_row();
    assert_eq!(row, strings(&["x.flac", "", "", "", "", ""]));
    let back = FileAttributes::from_row(&row, 0).unwrap();
    assert_eq!(back.album, None);
    assert!(back.artist.is_empty());
    assert_eq!(back.title, None);
    assert_eq!(back.track, None);
    assert_eq!(back.year, None);
}

#[test]
fn row_errors() {
    let short = strings(&["a", "b"]);
    assert_eq!(FileAttributes::from_row(&short, 2).unwrap_err(), TableError::WrongArity(2));
    let bad_track = strings(&["a", "", "", "", "x3", ""]);
    assert_eq!(FileAttributes::from_row(&bad_track, 1).unwrap_err(), TableError::BadTrack(1));
    let bad_year = strings(&["a", "", "", "", "3", "1999y"]);
    assert_eq!(FileAttributes::from_row(&bad_year, 0).unwrap_err(), TableError::BadYear(0));
    let negative_track = strings(&["a", "", "", "", "-3", ""]);
    assert_eq!(FileAttributes::from_row(&negative_track, 0).unwrap_err(), TableError::BadTrack(0));
}

#[test]
fn table_text_exact() {
    let text = encode_table(&vec![full(), empty_record("b.flac")]).unwrap();
    assert_eq!(
        text,
        "path\talbum\tartist\ttitle\ttrack\tyear\n\
         /abs/file.flac\tSome Album\tArtist One,Artist Two\tSong\t3\t1999\n\
         b.flac\t\t\t\t\t\n"
    );
}

#[test]
fn table_round_trip() {
    let text = encode_table(&vec![full()]).unwrap();
    let back = decode_table(&text).unwrap();
    assert_eq!(back.len(), 1);
    assert_eq!(back[0].path, "/abs/file.flac");
    assert_eq!(back[0].artist, strings(&["Artist One", "Artist Two"]));
    assert_eq!(back[0].year, Some(1999));
}

#[test]
fn table_with_tab_in_field_round_trips() {
    let mut f = full();
    f.title = Some("Tab\there \"quoted\"".to_string());
    let text = encode_table(&vec![f]).unwrap();
    let back = decode_table(&text).unwrap();
    assert_eq!(back[0].title.as_deref(), Some("Tab\there \"quoted\""));
}

#[test]
fn decode_last_row_for_a_path_wins() {
    let text = "path\talbum\tartist\ttitle\ttrack\tyear\n\
                a.flac\tFirst\t\t\t\t\n\
                b.flac\tOther\t\t\t\t\n\
                a.flac\tSecond\t\t\t\t\n";
    let back = decode_table(text).unwrap();
    assert_eq!(back.len(), 2);
    let a = back.iter().find(|f| f.path == "a.flac").unwrap();
    assert_eq!(a.album.as_deref(), Some("Second"));
}

#[test]
fn decode_empty_text_gives_nothing() {
    assert!(decode_table("").unwrap().is_empty());
}

#[test]
fn decode_rejects_bad_header() {
    let text = "path\talbum\tartists\ttitle\ttrack\tyear\na\t\t\t\t\t\n";
    assert!(matches!(decode_table(text), Err(SyncError::Table(TableError::BadHeader))));
}

#[test]
fn decode_rejects_bad_number() {
    let text = "path\talbum\tartist\ttitle\ttrack\tyear\na\t\t\t\tthree\t\n";
    assert!(matches!(decode_table(text), Err(SyncError::Table(TableError::BadTrack(0)))));
}

#[test]
fn decode_rejects_wrong_arity() {
    let text = "path\talbum\tartist\ttitle\ttrack\tyear\na\tb\n";
    assert!(matches!(decode_table(text), Err(SyncError::Csv(_))));
}

#[test]
fn index_keeps_one_record_per_path() {
    let mut later = empty_record("a");
    later.track = Some(9);
    let v = index_by_path(vec![empty_record("a"), empty_record("b"), later]);
    assert_eq!(v.len(), 2);
    assert_eq!(v[0].path, "a");
    assert_eq!(v[0].track, Some(9));
    assert_eq!(v[1].path, "b");
}

#[test]
fn header_and_text_helpers() {
    assert_eq!(header_fields(), strings(&["path", "album", "artist", "title", "track", "year"]));
    assert_eq!(join_with_commas(&strings(&["a", "b", "c"])), "a,b,c");
    assert_eq!(join_with_commas(&strings(&[])), "");
    assert_eq!(split_on_commas("a,,b"), strings(&["a", "", "b"]));
    assert_eq!(split_on_commas(""), strings(&[""]));
    assert!(same_text("abc", "abc"));
    assert!(!same_text("abc", "abd"));
}

#[test]
fn with_path_keys_attributes() {
    let a = Attributes {
        album: Some("A".to_string()),
        artist: strings(&["X"]),
        title: None,
        track: Some(1),
        year: None,
    };
    let f = a.with_path("p.flac");
    assert_eq!(f.path, "p.flac");
    assert_eq!(f.album.as_deref(), Some("A"));
    assert_eq!(f.artist, strings(&["X"]));
    assert_eq!(f.track, Some(1));
}

fn sample_comment() -> VorbisComment {
    let mut c = VorbisComment::new();
    c.set("ALBUM", vec!["Old Album", "Second"]);
    c.set("ALBUMSORT", vec!["Sort"]);
    c.set("ARTIST", vec!["One", "Two"]);
    c.set("TITLE", vec!["Old Title"]);
    c.set("TRACKNUMBER", vec!["07"]);
    c.set("YEAR", vec!["1987"]);
    c
}

#[test]
fn vorbis_extraction() {
    let a = Attributes::from_vorbis(&sample_comment());
    assert_eq!(a.album.as_deref(), Some("Old Album"));
    assert_eq!(a.artist, strings(&["One", "Two"]));
    assert_eq!(a.title.as_deref(), Some("Old Title"));
    assert_eq!(a.track, Some(7));
    assert_eq!(a.year, Some(1987));
    let empty = Attributes::from_vorbis(&VorbisComment::new());
    assert_eq!(empty.album, None);
    assert!(empty.artist.is_empty());
    assert_eq!(empty.track, None);
    assert_eq!(empty.year, None);
}

#[test]
fn vorbis_bad_year_is_absent() {
    let mut c = VorbisComment::new();
    c.set("YEAR", vec!["circa 1990"]);
    assert_eq!(Attributes::from_vorbis(&c).year, None);
}

#[test]
fn title_only_update_keeps_album_and_track_clears_artist() {
    let mut c = sample_comment();
    let update = Attributes {
        album: None,
        artist: vec![],
        title: Some("New Title".to_string()),
        track: None,
        year: None,
    };
    update.apply_to_vorbis(&mut c);
    assert_eq!(c.get("ALBUM").unwrap(), &strings(&["Old Album", "Second"]));
    assert_eq!(c.get("ALBUMSORT").unwrap(), &strings(&["Sort"]));
    assert_eq!(c.get("TRACKNUMBER").unwrap(), &strings(&["07"]));
    assert_eq!(c.get("TITLE").unwrap(), &strings(&["New Title"]));
    assert!(c.get("ARTIST").unwrap().is_empty());
}

#[test]
fn full_update_sets_every_field() {
    let mut c = sample_comment();
    let update = Attributes {
        album: Some("New Album".to_string()),
        artist: strings(&["Three"]),
        title: None,
        track: Some(12),
        year: Some(2001),
    };
    update.apply_to_vorbis(&mut c);
    assert_eq!(c.get("ALBUM").unwrap(), &strings(&["New Album"]));
    assert!(c.get("ALBUMSORT").is_none());
    assert_eq!(c.get("TRACKNUMBER").unwrap(), &strings(&["12"]));
    assert_eq!(c.get("ARTIST").unwrap(), &strings(&["Three"]));
    assert_eq!(c.get("TITLE").unwrap(), &strings(&["Old Title"]));
}

#[test]
fn id3_frames_to_attributes() {
    let a = Attributes::from_id3(Id3Frames {
        album: Some("Al".to_string()),
        artist: Some("Solo".to_string()),
        title: Some("T".to_string()),
        track: Some(2),
        year: Some(2020),
    });
    assert_eq!(a.artist, strings(&["Solo"]));
    assert_eq!(a.year, Some(2020));
    let none = Attributes::from_id3(Id3Frames {
        album: None,
        artist: None,
        title: None,
        track: None,
        year: None,
    });
    assert!(none.artist.is_empty());
}

#[test]
fn comma_artist_splits_through_table() {
    let mut f = full();
    f.artist = vec!["Earth, Wind".to_string()];
    let text = encode_table(&vec![f.clone()]).unwrap();
    let back = decode_table(&text).unwrap();
    assert_eq!(back.len(), 1);
    assert_eq!(back[0].artist, strings(&["Earth", " Wind"]));
    assert_ne!(back[0].artist, f.artist);
    assert_eq!(back[0].album, f.album);
    assert_eq!(back[0].title, f.title);
    assert_eq!(back[0].track, f.track);
    assert_eq!(back[0].year, f.year);
}
