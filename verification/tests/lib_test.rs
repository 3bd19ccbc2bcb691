use tomegane::frame_files::{frame_files, has_extension};
use tomegane::error::{Error, ErrorKind};
use tomegane::extract::diff::{select_key_frames, PHash};
use tomegane::{
    build_frame, check_extracted, check_stream_options, describe_frame, image_base64, ImageFormat,
};

#[test]
fn invalid_format_string_errors_out() {
    let result: Result<ImageFormat, _> = "bmp".parse();
    assert!(matches!(result, Err(Error::InvalidFormat(_))));
}

#[test]
fn format_names_ignore_case() {
    assert_eq!("PNG".parse::<ImageFormat>().unwrap(), ImageFormat::Png);
    assert_eq!("Jpeg".parse::<ImageFormat>().unwrap(), ImageFormat::Jpg);
    assert_eq!("jpg".parse::<ImageFormat>().unwrap(), ImageFormat::Jpg);
    match "BMP".parse::<ImageFormat>() {
        Err(Error::InvalidFormat(name)) => assert_eq!(name, "bmp"),
        other => panic!("unexpected {other:?}"),
    }
}

#[test]
fn format_extension_and_mime_type() {
    assert_eq!(ImageFormat::Png.extension(), "png");
    assert_eq!(ImageFormat::Jpg.extension(), "jpg");
    assert_eq!(ImageFormat::Png.mime_type(), "image/png");
    assert_eq!(ImageFormat::Jpg.mime_type(), "image/jpeg");
}

#[test]
fn frame_descriptions_follow_change_score() {
    assert_eq!(describe_frame(0, 40), "initial_state");
    assert_eq!(describe_frame(3, 32), "major_change");
    assert_eq!(describe_frame(3, 31), "moderate_change");
    assert_eq!(describe_frame(3, 13), "moderate_change");
    assert_eq!(describe_frame(3, 12), "minor_change");
    assert_eq!(describe_frame(3, 1), "minor_change");
    assert_eq!(describe_frame(3, 0), "frame_3");
    assert_eq!(describe_frame(1204, 0), "frame_1204");
}

#[test]
fn build_frame_embeds_base64_only_when_asked() {
    let with = build_frame("/tmp/frame_0002.png".to_string(), 1, Some(b"hello".to_vec()), 0);
    assert_eq!(with.image_base64.as_deref(), Some("aGVsbG8="));
    assert_eq!(with.description, "frame_1");
    assert_eq!(with.image_path, "/tmp/frame_0002.png");
    let without = build_frame("/tmp/frame_0001.png".to_string(), 0, None, 0);
    assert!(without.image_base64.is_none());
    assert_eq!(without.description, "initial_state");
}

#[test]
fn base64_encodes_with_standard_padding() {
    assert_eq!(image_base64(b""), "");
    assert_eq!(image_base64(b"f"), "Zg==");
    assert_eq!(image_base64(b"fo"), "Zm8=");
    assert_eq!(image_base64(b"foo"), "Zm9v");
    assert_eq!(image_base64(&[0x89, b'P', b'N', b'G']), "iVBORw==");
    assert_eq!(image_base64(&[0xfb, 0xff]), "+/8=");
}

#[test]
fn analyze_stream_rejects_max_frames() {
    assert!(matches!(check_stream_options(Some(1)), Err(Error::StreamingUnsupportedWithMaxFrames)));
    assert!(check_stream_options(None).is_ok());
}

#[test]
fn empty_extraction_is_an_error() {
    assert!(matches!(check_extracted(0), Err(Error::NoFramesExtracted)));
    assert!(check_extracted(5).is_ok());
}

#[test]
fn error_codes_are_stable() {
    assert_eq!(ErrorKind::VideoNotFound.code(), "video_not_found");
    assert_eq!(ErrorKind::FfmpegMissing.code(), "ffmpeg_not_found");
    assert_eq!(ErrorKind::Serde.code(), "serialization_error");
    assert_eq!(ErrorKind::StreamingUnsupportedWithMaxFrames.code(), "streaming_unsupported_with_max_frames");
    assert_eq!(Error::NoFramesExtracted.code(), "no_frames_extracted");
}

#[test]
fn exit_codes_group_error_kinds() {
    assert_eq!(ErrorKind::InvalidThreshold.exit_code(), 2);
    assert_eq!(ErrorKind::TimestampOutOfRange.exit_code(), 2);
    assert_eq!(ErrorKind::FfmpegMissing.exit_code(), 3);
    assert_eq!(ErrorKind::VideoNotFound.exit_code(), 4);
    assert_eq!(ErrorKind::Io.exit_code(), 4);
    assert_eq!(ErrorKind::Parse.exit_code(), 1);
    assert_eq!(ErrorKind::Serde.exit_code(), 1);
}

#[test]
fn selected_frames_get_labels() {
    let hashes = vec![PHash(0), PHash(u64::MAX), PHash(u64::MAX >> 1)];
    let selected = select_key_frames(&hashes, 1, None);
    let labels: Vec<String> = selected.iter().map(|k| describe_frame(k.index, k.distance)).collect();
    assert_eq!(labels, vec!["initial_state", "major_change", "minor_change"]);
}

#[test]
fn png_is_the_default_format() {
    assert_eq!(ImageFormat::default(), ImageFormat::Png);
}

#[test]
fn frame_files_pick_the_format_in_name_order() {
    let names: Vec<String> = ["frame_0003.png", "frame_0001.png", "notes.txt", ".png", "frame_0002.png", "a.jpg"]
        .iter()
        .map(|s| s.to_string())
        .collect();
    assert_eq!(frame_files(&names, "png"), vec![1, 4, 0]);
    assert_eq!(frame_files(&names, "jpg"), vec![5]);
    assert!(has_extension("x.tar.png", "png"));
    assert!(!has_extension(".png", "png"));
    assert!(!has_extension("png", "png"));
    assert!(!has_extension("..", ""));
    assert!(has_extension("a.", ""));
}
