use tplayer::media::{media_kind_of_extension, media_kind_of_lowercase, media_kind_of_path, stream_url, MediaKind};

#[test]
fn audio_extensions_in_any_case() {
    assert_eq!(media_kind_of_path("/music/Song.MP3"), MediaKind::Audio);
    assert_eq!(media_kind_of_path("a.flac"), MediaKind::Audio);
    assert_eq!(media_kind_of_path("a.Wav"), MediaKind::Audio);
    assert_eq!(media_kind_of_path("a.aac"), MediaKind::Audio);
    assert_eq!(media_kind_of_path("a.ogg"), MediaKind::Audio);
    assert_eq!(media_kind_of_extension("OGG"), MediaKind::Audio);
}

#[test]
fn everything_else_is_video() {
    assert_eq!(media_kind_of_path("/videos/movie.mp4"), MediaKind::Video);
    assert_eq!(media_kind_of_path("/videos/movie"), MediaKind::Video);
    assert_eq!(media_kind_of_path("/videos/.mp3"), MediaKind::Video);
    assert_eq!(media_kind_of_path("song.mp3.mkv"), MediaKind::Video);
    assert_eq!(media_kind_of_lowercase("MP3"), MediaKind::Video);
    assert_eq!(media_kind_of_lowercase(""), MediaKind::Video);
}

#[test]
fn stream_url_encodes_the_path() {
    assert_eq!(
        stream_url(8080, "/tmp/a b.mp4"),
        "http://127.0.0.1:8080/stream?file=%2Ftmp%2Fa%20b.mp4"
    );
    assert_eq!(stream_url(0, "é~_-.x"), "http://127.0.0.1:0/stream?file=%C3%A9~_-.x");
    assert_eq!(stream_url(65535, ""), "http://127.0.0.1:65535/stream?file=");
}

#[test]
fn paths_without_a_file_extension_are_video() {
    assert_eq!(media_kind_of_path("/Music.v2/track"), MediaKind::Video);
    assert_eq!(media_kind_of_path("/Music.mp3/track/"), MediaKind::Video);
    assert_eq!(media_kind_of_path("/videos/.ogg"), MediaKind::Video);
    assert_eq!(media_kind_of_path("file."), MediaKind::Video);
    assert_eq!(media_kind_of_path("/a/song..mp3"), MediaKind::Audio);
}

#[test]
fn colons_outside_a_drive_do_not_matter() {
    assert_eq!(media_kind_of_path("/x/a:b.mp3"), MediaKind::Audio);
    let p = tplayer::subtitle::subtitle_paths("/x/a:b.mkv");
    assert_eq!(p.srt, "/x/a:b.srt");
}
