use tagsync::apply::stage_output;
use tagsync::attributes::{Attributes, TagFormat};
use tagsync::cli::{dispatch, run, ApplyAttributes, Args, Command, List, Pipeline};
use tagsync::convert::ConvertToFlac;
use tagsync::error::SyncError;
use tagsync::paths::{extension_of, file_name_of, join_to_dir, replace_extension, PathGroup};

#[test]
fn track_number_from_leading_digits() {
    assert_eq!(PathGroup::new("03 Song Title.flac").track(), Some(3));
    assert_eq!(PathGroup::new("music/album/12 Other.flac").track(), Some(12));
}

#[test]
fn track_number_absent_without_space() {
    assert_eq!(PathGroup::new("Song Title.flac").track(), None);
    assert_eq!(PathGroup::new("SongTitle.flac").track(), None);
}

#[test]
fn track_number_absent_for_non_numeric_prefix() {
    assert_eq!(PathGroup::new("abc Song.flac").track(), None);
    assert_eq!(PathGroup::new("99999999999 Song.flac").track(), None);
}

#[test]
fn track_number_reads_only_the_file_name() {
    assert_eq!(PathGroup::new("04 dir/Song.flac").track(), None);
}

#[test]
fn sibling_mp3_path() {
    let g = PathGroup::new("music/a.b/track.flac");
    assert_eq!(g.flac(), "music/a.b/track.flac");
    assert_eq!(g.mp3(), "music/a.b/track.mp3");
    assert_eq!(PathGroup::new("music/a.b/track").mp3(), "music/a.b/track.mp3");
    assert_eq!(PathGroup::new(".hidden").mp3(), ".hidden.mp3");
}

#[test]
fn output_path_joins_file_name() {
    let g = PathGroup::new("/music/in/03 Song.flac");
    assert_eq!(g.flac_output("out"), "out/03 Song.flac");
    assert_eq!(g.flac_output("out/"), "out/03 Song.flac");
    assert_eq!(g.flac_output(""), "03 Song.flac");
}

#[test]
fn path_helpers() {
    assert_eq!(file_name_of("a/b/c.flac"), "c.flac");
    assert_eq!(file_name_of("c.flac"), "c.flac");
    assert_eq!(extension_of("a/b/c.flac"), Some("flac"));
    assert_eq!(extension_of("a.b/c"), None);
    assert_eq!(extension_of(".flac"), None);
    assert_eq!(replace_extension("a/b.wav", "flac"), "a/b.flac");
    assert_eq!(join_to_dir("d", "f"), "d/f");
}

#[test]
fn unsupported_format_rejected() {
    match Attributes::format_of_path("song.ogg") {
        Err(SyncError::UnsupportedFileType(p)) => assert_eq!(p, "song.ogg"),
        other => panic!("unexpected {:?}", other),
    }
    assert!(matches!(
        Attributes::format_of_path("no_extension"),
        Err(SyncError::UnsupportedFileType(_))
    ));
    assert!(matches!(
        Attributes::format_of_path("dir.flac/file"),
        Err(SyncError::UnsupportedFileType(_))
    ));
}

#[test]
fn supported_formats_recognised() {
    assert_eq!(Attributes::format_of_path("a/b.flac").unwrap(), TagFormat::Flac);
    assert_eq!(Attributes::format_of_path("a/b.mp3").unwrap(), TagFormat::Mp3);
}

#[test]
fn convert_targets_flac_beside_wav() {
    let c = ConvertToFlac {
        files: vec![
            "track.wav".to_string(),
            "notes.txt".to_string(),
            "dir/other.wav".to_string(),
            "song.flac".to_string(),
        ],
    };
    assert_eq!(c.wav_paths(), vec!["track.wav".to_string(), "dir/other.wav".to_string()]);
    let plan = c.conversion_plan(true).unwrap();
    assert_eq!(plan.len(), 2);
    assert_eq!(plan[0].input, "track.wav");
    assert_eq!(plan[0].output, "track.flac");
    assert_eq!(plan[1].input, "dir/other.wav");
    assert_eq!(plan[1].output, "dir/other.flac");
}

#[test]
fn convert_without_wav_input_is_an_error() {
    let c = ConvertToFlac { files: vec!["a.mp3".to_string(), "wav".to_string()] };
    assert!(matches!(c.conversion_plan(true), Err(SyncError::NoWavInput)));
    let empty = ConvertToFlac { files: vec![] };
    assert!(matches!(empty.conversion_plan(true), Err(SyncError::NoWavInput)));
}

#[test]
fn convert_without_encoder_is_an_error() {
    let c = ConvertToFlac { files: vec!["a.wav".to_string()] };
    assert!(matches!(c.conversion_plan(false), Err(SyncError::FfmpegNotInstalled)));
}

#[test]
fn existing_output_is_refused() {
    let g = PathGroup::new("in/03 Song.flac");
    match stage_output(&g, "out", true) {
        Err(SyncError::AlreadyExists(p)) => assert_eq!(p, "out/03 Song.flac"),
        other => panic!("unexpected {:?}", other),
    }
    assert_eq!(stage_output(&g, "out", false).unwrap(), "out/03 Song.flac");
}

#[test]
fn dispatch_picks_pipeline() {
    let apply = Command::Apply(ApplyAttributes { attributes: None, output: None });
    assert_eq!(dispatch(&apply), Pipeline::Apply);
    assert_eq!(dispatch(&Command::List(List { files: vec![] })), Pipeline::List);
    assert_eq!(
        dispatch(&Command::Convert(ConvertToFlac { files: vec![] })),
        Pipeline::Convert
    );
    assert_eq!(run(&Args { command: None }), Pipeline::Nothing);
    assert_eq!(run(&Args { command: Some(apply) }), Pipeline::Apply);
}

#[test]
fn trailing_separators_are_ignored() {
    assert_eq!(file_name_of("music/x.flac/"), "x.flac");
    assert_eq!(file_name_of("music/x.flac//"), "x.flac");
    assert_eq!(extension_of("music/x.flac/"), Some("flac"));
    assert_eq!(PathGroup::new("music/x.flac/").flac_output("out"), "out/x.flac");
    assert_eq!(PathGroup::new("music/x.flac/").mp3(), "music/x.mp3");
    assert_eq!(Attributes::format_of_path("x.flac/").unwrap(), TagFormat::Flac);
}

#[test]
fn dot_components_have_no_file_name() {
    assert_eq!(file_name_of(".."), "");
    assert_eq!(file_name_of("a/.."), "");
    assert_eq!(file_name_of("a/./"), "");
    assert_eq!(PathGroup::new("..").mp3(), "..");
    assert_eq!(PathGroup::new("a/.").mp3(), "a/.");
    assert_eq!(extension_of("a/.."), None);
    assert_eq!(replace_extension("/", "mp3"), "/");
}
