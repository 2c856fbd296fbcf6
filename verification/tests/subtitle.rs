use tplayer::subtitle::{srt_to_vtt, subtitle_reply, subtitle_source, SubtitleReply, SubtitleSource};

#[test]
fn converts_cue_timings_to_dots() {
    let srt = "1\n00:00:01,000 --> 00:00:04,500\nHello, world\n\n2\n00:00:05,250 --> 00:00:06,000\nBye\n";
    let vtt = srt_to_vtt(srt);
    assert_eq!(
        vtt,
        "WEBVTT\n\n1\n00:00:01.000 --> 00:00:04.500\nHello, world\n\n2\n00:00:05.250 --> 00:00:06.000\nBye\n"
    );
}

#[test]
fn empty_input_gives_header_only() {
    assert_eq!(srt_to_vtt(""), "WEBVTT\n\n");
}

#[test]
fn crlf_endings_are_dropped() {
    let srt = "1\r\n00:00:01,000 --> 00:00:02,000\r\nHi, there\r\n";
    assert_eq!(srt_to_vtt(srt), "WEBVTT\n\n1\n00:00:01.000 --> 00:00:02.000\nHi, there\n");
}

#[test]
fn final_line_without_newline_gets_one() {
    assert_eq!(srt_to_vtt("a\nb"), "WEBVTT\n\na\nb\n");
    assert_eq!(srt_to_vtt("a\nb\n"), "WEBVTT\n\na\nb\n");
}

#[test]
fn lone_carriage_return_at_end_stays() {
    assert_eq!(srt_to_vtt("a\r"), "WEBVTT\n\na\r\n");
    assert_eq!(srt_to_vtt("a\rb\n"), "WEBVTT\n\na\rb\n");
}

#[test]
fn blank_lines_are_kept() {
    assert_eq!(srt_to_vtt("\n\n"), "WEBVTT\n\n\n\n");
}

#[test]
fn arrow_needs_surrounding_spaces() {
    assert_eq!(srt_to_vtt("1,2-->3,4\n"), "WEBVTT\n\n1,2-->3,4\n");
    assert_eq!(srt_to_vtt(" --> ,\n"), "WEBVTT\n\n --> .\n");
}

#[test]
fn non_ascii_text_survives() {
    assert_eq!(
        srt_to_vtt("00:00:01,000 --> 00:00:02,000\n你好，世界,\n"),
        "WEBVTT\n\n00:00:01.000 --> 00:00:02.000\n你好，世界,\n"
    );
}

#[test]
fn converting_twice_changes_only_the_header() {
    let once = srt_to_vtt("00:00:01,000 --> 00:00:02,000\nx\n");
    let twice = srt_to_vtt(&once);
    assert_eq!(twice, format!("WEBVTT\n\n{}", once));
}

#[test]
fn webvtt_file_wins_over_subrip() {
    assert_eq!(subtitle_source(true, true), SubtitleSource::WebVtt);
    assert_eq!(subtitle_source(true, false), SubtitleSource::WebVtt);
    assert_eq!(subtitle_source(false, true), SubtitleSource::SubRip);
    assert_eq!(subtitle_source(false, false), SubtitleSource::Missing);
}

#[test]
fn replies_for_each_source() {
    assert_eq!(subtitle_reply(SubtitleSource::Missing, None), SubtitleReply::NotFound);
    assert_eq!(subtitle_reply(SubtitleSource::WebVtt, None), SubtitleReply::ReadFailed);
    assert_eq!(subtitle_reply(SubtitleSource::SubRip, None), SubtitleReply::ReadFailed);
    assert_eq!(
        subtitle_reply(SubtitleSource::WebVtt, Some("WEBVTT\n\nx\n".to_string())),
        SubtitleReply::Document("WEBVTT\n\nx\n".to_string())
    );
    assert_eq!(
        subtitle_reply(SubtitleSource::SubRip, Some("00:00:01,5 --> 00:00:02,5\n".to_string())),
        SubtitleReply::Document("WEBVTT\n\n00:00:01.5 --> 00:00:02.5\n".to_string())
    );
}

#[test]
fn subtitle_files_sit_beside_the_video() {
    let p = tplayer::subtitle::subtitle_paths("/videos/movie.mp4");
    assert_eq!(p.vtt, "/videos/movie.vtt");
    assert_eq!(p.srt, "/videos/movie.srt");
    let p = tplayer::subtitle::subtitle_paths("/v.1/clip");
    assert_eq!(p.vtt, "/v.1/clip.vtt");
    assert_eq!(p.srt, "/v.1/clip.srt");
}
