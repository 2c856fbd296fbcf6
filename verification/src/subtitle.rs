use vstd::prelude::*;

use crate::media::{bare_file_name, path_with_extension, plain_extension, with_extension_spec};
use crate::text::{chars_of, push_char};

verus! {

// ---------------------------------------------------------------------------
// The text model: lines as `str::lines` splits them.
// ---------------------------------------------------------------------------

/// The index of the first line feed at or after `i`, or the length of `s`
/// when there is none.
pub open spec fn next_newline(s: Seq<char>, i: int) -> int
    decreases s.len() - i,
{
    if i >= s.len() {
        s.len() as int
    } else if s[i] == '\n' {
        i
    } else {
        next_newline(s, i + 1)
    }
}

/// A line without the carriage return of a CRLF ending.
pub open spec fn strip_cr(line: Seq<char>) -> Seq<char> {
    if line.len() > 0 && line.last() == '\r' {
        line.drop_last()
    } else {
        line
    }
}

pub proof fn lemma_next_newline_bounds(s: Seq<char>, i: int)
    requires
        0 <= i <= s.len(),
    ensures
        i <= next_newline(s, i) <= s.len(),
        next_newline(s, i) < s.len() ==> s[next_newline(s, i)] == '\n',
        forall|j: int| i <= j < next_newline(s, i) ==> s[j] != '\n',
    decreases s.len() - i,
{
    if i < s.len() && s[i] != '\n' {
        lemma_next_newline_bounds(s, i + 1);
    }
}

/// The lines of `s` from index `start` on: each runs up to the next line
/// feed, without it and without a carriage return just before it; a final
/// line feed does not open another line, and a carriage return that no line
/// feed follows stays in its line.
pub open spec fn lines_from(s: Seq<char>, start: int) -> Seq<Seq<char>>
    decreases s.len() - start,
    via lines_from_decreases
{
    if start < 0 || start >= s.len() {
        Seq::empty()
    } else {
        let e = next_newline(s, start);
        if e >= s.len() {
            seq![s.subrange(start, e)]
        } else {
            seq![strip_cr(s.subrange(start, e))] + lines_from(s, e + 1)
        }
    }
}

#[via_fn]
proof fn lines_from_decreases(s: Seq<char>, start: int) {
    if 0 <= start < s.len() {
        lemma_next_newline_bounds(s, start);
    }
}

/// The lines of `s`, as `str::lines` yields them.
pub open spec fn text_lines(s: Seq<char>) -> Seq<Seq<char>> {
    lines_from(s, 0)
}

// ---------------------------------------------------------------------------
// The conversion.
// ---------------------------------------------------------------------------

/// `line` holds the cue arrow ` --> ` at index `i`.
pub open spec fn arrow_at(line: Seq<char>, i: int) -> bool {
    &&& 0 <= i
    &&& i + 5 <= line.len()
    &&& line[i] == ' '
    &&& line[i + 1] == '-'
    &&& line[i + 2] == '-'
    &&& line[i + 3] == '>'
    &&& line[i + 4] == ' '
}

/// `line` is a cue timing line: it holds ` --> `.
pub open spec fn is_timing_line(line: Seq<char>) -> bool {
    exists|i: int| arrow_at(line, i)
}

/// SubRip writes the decimal separator of a time as a comma, WebVTT as a dot.
pub open spec fn comma_to_dot(c: char) -> char {
    if c == ',' {
        '.'
    } else {
        c
    }
}

/// A SubRip line as WebVTT writes it: in a timing line every comma becomes a
/// dot; any other line is kept as it is.
pub open spec fn vtt_line(line: Seq<char>) -> Seq<char> {
    if is_timing_line(line) {
        line.map_values(|c: char| comma_to_dot(c))
    } else {
        line
    }
}

/// The converted lines, each followed by a line feed.
pub open spec fn render_lines(lines: Seq<Seq<char>>) -> Seq<char>
    decreases lines.len(),
{
    if lines.len() == 0 {
        Seq::empty()
    } else {
        vtt_line(lines[0]) + seq!['\n'] + render_lines(lines.drop_first())
    }
}

/// The signature line of a WebVTT file and the blank line after it.
pub open spec fn vtt_header() -> Seq<char> {
    seq!['W', 'E', 'B', 'V', 'T', 'T', '\n', '\n']
}

/// The WebVTT document for the SubRip text `srt`.
pub open spec fn vtt_document(srt: Seq<char>) -> Seq<char> {
    vtt_header() + render_lines(text_lines(srt))
}

fn find_newline(cs: &Vec<char>, start: usize) -> (e: usize)
    requires
        start <= cs.len(),
    ensures
        e == next_newline(cs@, start as int),
{
    let mut i = start;
    while i < cs.len()
        invariant
            start <= i <= cs.len(),
            next_newline(cs@, start as int) == next_newline(cs@, i as int),
        decreases cs.len() - i,
    {
        if cs[i] == '\n' {
            return i;
        }
        i = i + 1;
    }
    i
}

fn timing_line(cs: &Vec<char>, start: usize, end: usize) -> (b: bool)
    requires
        start <= end <= cs.len(),
    ensures
        b == is_timing_line(cs@.subrange(start as int, end as int)),
{
    let ghost line = cs@.subrange(start as int, end as int);
    let mut i = start;
    while i < end && end - i >= 5
        invariant
            start <= i,
            end <= cs.len(),
            line == cs@.subrange(start as int, end as int),
            forall|j: int| 0 <= j < i - start ==> !arrow_at(line, j),
        decreases end - i,
    {
        if cs[i] == ' ' && cs[i + 1] == '-' && cs[i + 2] == '-' && cs[i + 3] == '>' && cs[i + 4] == ' ' {
            assert(arrow_at(line, i - start));
            return true;
        }
        i = i + 1;
    }
    assert forall|j: int| !arrow_at(line, j) by {
        if 0 <= j && j < i - start {
        }
    }
    false
}

/// Converts SubRip subtitles to WebVTT: the `WEBVTT` header and a blank
/// line, then every line of `srt`, with commas turned to dots in cue timing
/// lines, each ended by a line feed.
pub fn srt_to_vtt(srt: &str) -> (vtt: String)
    ensures
        vtt@ == vtt_document(srt@),
{
    let cs = chars_of(srt);
    let mut out = String::new();
    push_char(&mut out, 'W');
    push_char(&mut out, 'E');
    push_char(&mut out, 'B');
    push_char(&mut out, 'V');
    push_char(&mut out, 'T');
    push_char(&mut out, 'T');
    push_char(&mut out, '\n');
    push_char(&mut out, '\n');
    assert(out@ == vtt_header());
    let len = cs.len();
    let mut start: usize = 0;
    while start < len
        invariant
            len == cs.len(),
            start <= len,
            out@ + render_lines(lines_from(cs@, start as int)) == vtt_document(cs@),
        decreases len - start,
    {
        let e = find_newline(&cs, start);
        proof {
            lemma_next_newline_bounds(cs@, start as int);
        }
        let end = if e < len && e > start && cs[e - 1] == '\r' { e - 1 } else { e };
        let ghost line = cs@.subrange(start as int, e as int);
        assert(e < len ==> strip_cr(line) == cs@.subrange(start as int, end as int));
        assert(e >= len ==> line == cs@.subrange(start as int, end as int));
        let timing = timing_line(&cs, start, end);
        let ghost before = out@;
        let mut k = start;
        while k < end
            invariant
                start <= k <= end,
                end <= cs.len(),
                timing == is_timing_line(cs@.subrange(start as int, end as int)),
                out@ == before + vtt_line(cs@.subrange(start as int, end as int)).take(k - start),
            decreases end - k,
        {
            let c = cs[k];
            let d = if timing && c == ',' { '.' } else { c };
            push_char(&mut out, d);
            proof {
                let l = cs@.subrange(start as int, end as int);
                assert(vtt_line(l).take(k + 1 - start) == vtt_line(l).take(k - start).push(d));
            }
            k = k + 1;
        }
        push_char(&mut out, '\n');
        proof {
            let l = cs@.subrange(start as int, end as int);
            assert(vtt_line(l).take(end - start) == vtt_line(l));
            let rest = lines_from(cs@, e + 1);
            assert(lines_from(cs@, start as int) == seq![l] + rest);
            assert((seq![l] + rest).drop_first() == rest);
            assert(render_lines(seq![l] + rest) == vtt_line(l) + seq!['\n'] + render_lines(rest));
            assert(out@ == before + vtt_line(l) + seq!['\n']);
        }
        if e < len {
            start = e + 1;
        } else {
            start = len;
        }
    }
    proof {
        assert(cs@ == srt@);
    }
    out
}



// ---------------------------------------------------------------------------
// Answering a subtitle request.
// ---------------------------------------------------------------------------

/// The file a subtitle request for a video is answered from.
#[derive(Clone, Copy, Debug, PartialEq, Eq, Structural)]
pub enum SubtitleSource {
    /// The `.vtt` file beside the video, served as it is.
    WebVtt,
    /// The `.srt` file beside the video, converted to WebVTT.
    SubRip,
    /// Neither exists.
    Missing,
}

/// The answer to a subtitle request.
#[derive(Debug, PartialEq, Eq)]
pub enum SubtitleReply {
    /// No subtitle file exists (404).
    NotFound,
    /// The chosen file could not be read as text (500).
    ReadFailed,
    /// A WebVTT document (200, `text/vtt; charset=utf-8`).
    Document(String),
}

pub open spec fn source_spec(vtt_exists: bool, srt_exists: bool) -> SubtitleSource {
    if vtt_exists {
        SubtitleSource::WebVtt
    } else if srt_exists {
        SubtitleSource::SubRip
    } else {
        SubtitleSource::Missing
    }
}

/// The subtitle files that belong to a video: beside it, with the video's
/// extension replaced by `vtt` and by `srt`.
pub struct SubtitlePaths {
    pub vtt: String,
    pub srt: String,
}

/// The subtitle files looked for beside the video at `video`. For a video
/// path of a plain form (`name.ext` or a bare `name`) they are that path with
/// the extension set to `vtt` and to `srt`.
pub fn subtitle_paths(video: &str) -> (paths: SubtitlePaths)
    ensures
        plain_extension(video@) is Some || bare_file_name(video@) ==> paths.vtt@ == with_extension_spec(
            video@,
            seq!['v', 't', 't'],
        ) && paths.srt@ == with_extension_spec(video@, seq!['s', 'r', 't']),
{
    proof {
        reveal_strlit("srt");
        reveal_strlit("vtt");
    }
    let srt = path_with_extension(video, "srt");
    let vtt = path_with_extension(video, "vtt");
    SubtitlePaths { vtt, srt }
}

/// Picks the subtitle file: a WebVTT file wins over a SubRip one.
pub fn subtitle_source(vtt_exists: bool, srt_exists: bool) -> (source: SubtitleSource)
    ensures
        source == source_spec(vtt_exists, srt_exists),
{
    if vtt_exists {
        SubtitleSource::WebVtt
    } else if srt_exists {
        SubtitleSource::SubRip
    } else {
        SubtitleSource::Missing
    }
}

/// Answers a subtitle request from `source`, given the text read from that
/// file (`None` when reading it failed; ignored when `source` is `Missing`).
pub fn subtitle_reply(source: SubtitleSource, contents: Option<String>) -> (reply: SubtitleReply)
    ensures
        source is Missing ==> reply is NotFound,
        !(source is Missing) && contents is None ==> reply is ReadFailed,
        source is WebVtt && contents is Some ==> (reply matches SubtitleReply::Document(d)
            && d@ == contents->0@),
        source is SubRip && contents is Some ==> (reply matches SubtitleReply::Document(d)
            && d@ == vtt_document(contents->0@)),
{
    match source {
        SubtitleSource::Missing => SubtitleReply::NotFound,
        SubtitleSource::WebVtt => match contents {
            Some(text) => SubtitleReply::Document(text),
            None => SubtitleReply::ReadFailed,
        },
        SubtitleSource::SubRip => match contents {
            Some(text) => SubtitleReply::Document(srt_to_vtt(text.as_str())),
            None => SubtitleReply::ReadFailed,
        },
    }
}

// ---------------------------------------------------------------------------
// Laws of the conversion.
// ---------------------------------------------------------------------------

/// Every converted document opens with the `WEBVTT` signature line and a
/// blank line.
pub proof fn law_document_starts_with_header(srt: Seq<char>)
    ensures
        vtt_document(srt).len() >= 8,
        vtt_document(srt).subrange(0, 8) == vtt_header(),
{
    assert(vtt_document(srt).subrange(0, 8) =~= vtt_header());
}

proof fn lemma_arrow_survives_comma_to_dot(line: Seq<char>, i: int)
    ensures
        arrow_at(line.map_values(|c: char| comma_to_dot(c)), i) == arrow_at(line, i),
{
}

/// Converting a line only ever turns commas into dots, and only in timing
/// lines; the length stays the same.
pub proof fn law_vtt_line_only_turns_commas_to_dots(line: Seq<char>)
    ensures
        vtt_line(line).len() == line.len(),
        forall|i: int|
            0 <= i < line.len() ==> #[trigger] vtt_line(line)[i] == line[i] || (line[i] == ','
                && vtt_line(line)[i] == '.' && is_timing_line(line)),
{
}

/// In every line that holds the cue arrow ` --> `, every comma becomes a
/// dot, whatever else the line holds; a line without the arrow is kept as
/// it is.
pub proof fn law_timing_lines_lose_every_comma(line: Seq<char>)
    ensures
        (exists|i: int|
            #![trigger line[i]]
            0 <= i && i + 5 <= line.len() && line[i] == ' ' && line[i + 1] == '-' && line[i + 2] == '-' && line[i
                + 3] == '>' && line[i + 4] == ' ') ==> vtt_line(line) == line.map_values(
            |c: char|
                if c == ',' {
                    '.'
                } else {
                    c
                },
        ),
        (forall|i: int|
            #![trigger line[i]]
            !(0 <= i && i + 5 <= line.len() && line[i] == ' ' && line[i + 1] == '-' && line[i + 2] == '-' && line[i
                + 3] == '>' && line[i + 4] == ' ')) ==> vtt_line(line) == line,
{
    if exists|i: int|
        #![trigger line[i]]
        0 <= i && i + 5 <= line.len() && line[i] == ' ' && line[i + 1] == '-' && line[i + 2] == '-' && line[i + 3]
            == '>' && line[i + 4] == ' ' {
        let i = choose|i: int|
            #![trigger line[i]]
            0 <= i && i + 5 <= line.len() && line[i] == ' ' && line[i + 1] == '-' && line[i + 2] == '-' && line[i
                + 3] == '>' && line[i + 4] == ' ';
        assert(arrow_at(line, i));
        assert(vtt_line(line) =~= line.map_values(|c: char| if c == ',' { '.' } else { c }));
    } else {
        assert forall|i: int| !arrow_at(line, i) by {
        }
    }
}

/// Converting an already converted line changes nothing: the conversion
/// neither makes nor breaks a cue arrow.
pub proof fn law_vtt_line_idempotent(line: Seq<char>)
    ensures
        is_timing_line(vtt_line(line)) == is_timing_line(line),
        vtt_line(vtt_line(line)) == vtt_line(line),
{
    let m = line.map_values(|c: char| comma_to_dot(c));
    assert forall|i: int| arrow_at(m, i) == arrow_at(line, i) by {
        lemma_arrow_survives_comma_to_dot(line, i);
    }
    if is_timing_line(line) {
        let i = choose|i: int| arrow_at(line, i);
        assert(arrow_at(m, i));
        assert(m.map_values(|c: char| comma_to_dot(c)) =~= m);
    } else {
        assert forall|i: int| !arrow_at(line, i) by {
        }
    }
}

/// The number of line feeds in `s`.
pub open spec fn count_newlines(s: Seq<char>) -> nat
    decreases s.len(),
{
    if s.len() == 0 {
        0
    } else {
        (if s.last() == '\n' { 1nat } else { 0nat }) + count_newlines(s.drop_last())
    }
}

proof fn lemma_count_newlines_concat(a: Seq<char>, b: Seq<char>)
    ensures
        count_newlines(a + b) == count_newlines(a) + count_newlines(b),
    decreases b.len(),
{
    if b.len() == 0 {
        assert(a + b =~= a);
    } else {
        lemma_count_newlines_concat(a, b.drop_last());
        assert((a + b).drop_last() =~= a + b.drop_last());
    }
}

proof fn lemma_count_newlines_none(s: Seq<char>)
    requires
        forall|i: int| 0 <= i < s.len() ==> s[i] != '\n',
    ensures
        count_newlines(s) == 0,
    decreases s.len(),
{
    if s.len() > 0 {
        lemma_count_newlines_none(s.drop_last());
    }
}

proof fn lemma_lines_have_no_newline(s: Seq<char>, start: int)
    ensures
        forall|k: int, j: int|
            0 <= k < lines_from(s, start).len() && 0 <= j < lines_from(s, start)[k].len()
                ==> #[trigger] lines_from(s, start)[k][j] != '\n',
    decreases s.len() - start,
{
    if 0 <= start < s.len() {
        lemma_next_newline_bounds(s, start);
        let e = next_newline(s, start);
        let sub = s.subrange(start, e);
        assert forall|j: int| 0 <= j < sub.len() implies sub[j] != '\n' by {
            assert(sub[j] == s[start + j]);
        }
        let first = if e >= s.len() { sub } else { strip_cr(sub) };
        assert forall|j: int| 0 <= j < first.len() implies first[j] != '\n' by {
            assert(first[j] == sub[j]);
        }
        if e < s.len() {
            lemma_lines_have_no_newline(s, e + 1);
            let rest = lines_from(s, e + 1);
            let all = lines_from(s, start);
            assert(all == seq![first] + rest);
            assert forall|k: int, j: int| 0 <= k < all.len() && 0 <= j < all[k].len() implies #[trigger] all[k][j] != '\n' by {
                if k > 0 {
                    assert(all[k] == rest[k - 1]);
                } else {
                    assert(all[k] == first);
                }
            }
        } else {
            let all = lines_from(s, start);
            assert(all == seq![first]);
            assert forall|k: int, j: int| 0 <= k < all.len() && 0 <= j < all[k].len() implies #[trigger] all[k][j] != '\n' by {
                assert(all[k] == first);
            }
        }
    }
}

proof fn lemma_render_counts_lines(lines: Seq<Seq<char>>)
    requires
        forall|k: int, j: int| 0 <= k < lines.len() && 0 <= j < lines[k].len() ==> #[trigger] lines[k][j] != '\n',
    ensures
        count_newlines(render_lines(lines)) == lines.len(),
    decreases lines.len(),
{
    if lines.len() > 0 {
        let rest = lines.drop_first();
        assert forall|k: int, j: int| 0 <= k < rest.len() && 0 <= j < rest[k].len() implies #[trigger] rest[k][j] != '\n' by {
            assert(rest[k] == lines[k + 1]);
        }
        lemma_render_counts_lines(rest);
        let l = lines[0];
        assert forall|j: int| 0 <= j < vtt_line(l).len() implies vtt_line(l)[j] != '\n' by {
            assert(l[j] != '\n');
        }
        lemma_count_newlines_none(vtt_line(l));
        lemma_count_newlines_concat(vtt_line(l), seq!['\n']);
        lemma_count_newlines_concat(vtt_line(l) + seq!['\n'], render_lines(rest));
        assert(count_newlines(seq!['\n']) == 1) by {
            assert(seq!['\n'].drop_last() =~= Seq::<char>::empty());
            reveal_with_fuel(count_newlines, 2);
        }
    }
}

/// The body of the document holds one line per line of the SubRip text: it
/// has exactly as many line feeds as the text has lines, and the header
/// adds two.
pub proof fn law_one_output_line_per_input_line(srt: Seq<char>)
    ensures
        count_newlines(render_lines(text_lines(srt))) == text_lines(srt).len(),
        count_newlines(vtt_document(srt)) == text_lines(srt).len() + 2,
{
    lemma_lines_have_no_newline(srt, 0);
    lemma_render_counts_lines(text_lines(srt));
    lemma_count_newlines_concat(vtt_header(), render_lines(text_lines(srt)));
    assert(count_newlines(vtt_header()) == 2) by {
        reveal_with_fuel(count_newlines, 9);
    }
}

proof fn lemma_next_newline_push(s: Seq<char>, c: char, i: int)
    requires
        0 <= i <= s.len(),
        c == '\n',
    ensures
        next_newline(s.push(c), i) == next_newline(s, i),
    decreases s.len() - i,
{
    if i < s.len() && s[i] != '\n' {
        lemma_next_newline_push(s, c, i + 1);
    }
}

proof fn lemma_lines_from_push_newline(s: Seq<char>, start: int)
    requires
        s.len() > 0,
        s.last() != '\n',
        s.last() != '\r',
        0 <= start < s.len(),
    ensures
        lines_from(s.push('\n'), start) == lines_from(s, start),
    decreases s.len() - start,
{
    let t = s.push('\n');
    lemma_next_newline_push(s, '\n', start);
    lemma_next_newline_bounds(s, start);
    let e = next_newline(s, start);
    assert(t.subrange(start, e) =~= s.subrange(start, e));
    if e < s.len() {
        assert(e + 1 < s.len());
        lemma_lines_from_push_newline(s, e + 1);
    } else {
        assert(lines_from(t, e + 1) =~= Seq::<Seq<char>>::empty());
        assert(lines_from(t, start) =~= seq![s.subrange(start, e)]);
    }
}

/// The final line ending is optional: text that ends in a line feed has
/// the same lines, and so the same conversion, as the text without it.
pub proof fn law_final_newline_optional(srt: Seq<char>)
    requires
        srt.len() > 0,
        srt.last() != '\n',
        srt.last() != '\r',
    ensures
        text_lines(srt.push('\n')) == text_lines(srt),
        vtt_document(srt.push('\n')) == vtt_document(srt),
{
    lemma_lines_from_push_newline(srt, 0);
}

proof fn lemma_render_passthrough(s: Seq<char>, start: int)
    requires
        0 <= start <= s.len(),
        s.len() > 0 ==> s.last() == '\n',
        forall|i: int| 0 <= i < s.len() ==> s[i] != '\r' && s[i] != ',',
    ensures
        render_lines(lines_from(s, start)) == s.subrange(start, s.len() as int),
    decreases s.len() - start,
{
    if start < s.len() {
        lemma_next_newline_bounds(s, start);
        let e = next_newline(s, start);
        assert(e < s.len()) by {
            if e >= s.len() {
                assert(s[s.len() - 1] == '\n');
            }
        }
        lemma_render_passthrough(s, e + 1);
        let l = s.subrange(start, e);
        assert(strip_cr(l) == l);
        assert(l.map_values(|c: char| comma_to_dot(c)) =~= l);
        assert(vtt_line(l) == l);
        let rest = lines_from(s, e + 1);
        assert((seq![l] + rest).drop_first() =~= rest);
        assert(render_lines(seq![l] + rest) == vtt_line(l) + seq!['\n'] + render_lines(rest));
        assert(s.subrange(start, s.len() as int) =~= l + seq!['\n'] + s.subrange(e + 1, s.len() as int));
    } else {
        assert(lines_from(s, start) =~= Seq::<Seq<char>>::empty());
        assert(s.subrange(start, s.len() as int) =~= Seq::<char>::empty());
    }
}

/// Text with no comma and no carriage return, ending in a line feed (or
/// empty), passes through unchanged behind the header.
pub proof fn law_plain_text_passes_through(srt: Seq<char>)
    requires
        srt.len() > 0 ==> srt.last() == '\n',
        forall|i: int| 0 <= i < srt.len() ==> srt[i] != '\r' && srt[i] != ',',
    ensures
        vtt_document(srt) == vtt_header() + srt,
{
    lemma_render_passthrough(srt, 0);
    assert(srt.subrange(0, srt.len() as int) =~= srt);
}

/// `s` with every line feed written as a carriage return and a line feed.
pub open spec fn with_crlf(s: Seq<char>) -> Seq<char>
    decreases s.len(),
    via with_crlf_decreases
{
    let e = next_newline(s, 0);
    if e >= s.len() {
        s
    } else {
        s.take(e) + seq!['\r', '\n'] + with_crlf(s.skip(e + 1))
    }
}

#[via_fn]
proof fn with_crlf_decreases(s: Seq<char>) {
    lemma_next_newline_bounds(s, 0);
}

proof fn lemma_next_newline_shift(s: Seq<char>, start: int, k: int)
    requires
        0 <= start <= s.len(),
        0 <= k <= s.len() - start,
    ensures
        next_newline(s.subrange(start, s.len() as int), k) == next_newline(s, start + k) - start,
    decreases s.len() - start - k,
{
    if start + k < s.len() && s[start + k] != '\n' {
        lemma_next_newline_shift(s, start, k + 1);
    }
}

proof fn lemma_lines_from_shift(s: Seq<char>, start: int, k: int)
    requires
        0 <= start <= s.len(),
        0 <= k <= s.len() - start,
    ensures
        lines_from(s.subrange(start, s.len() as int), k) == lines_from(s, start + k),
    decreases s.len() - start - k,
{
    let t = s.subrange(start, s.len() as int);
    if k < t.len() {
        lemma_next_newline_shift(s, start, k);
        lemma_next_newline_bounds(s, start + k);
        let e = next_newline(s, start + k);
        assert(t.subrange(k, e - start) =~= s.subrange(start + k, e));
        if e < s.len() {
            lemma_lines_from_shift(s, start, e + 1 - start);
        }
    }
}

proof fn lemma_lines_of_first_line(a: Seq<char>, b: Seq<char>)
    requires
        forall|i: int| 0 <= i < a.len() ==> a[i] != '\n',
    ensures
        text_lines(a + seq!['\n'] + b) == seq![strip_cr(a)] + text_lines(b),
{
    let t = a + seq!['\n'] + b;
    assert(next_newline(t, 0) == a.len()) by {
        lemma_next_newline_bounds(t, 0);
        if next_newline(t, 0) < a.len() {
            assert(t[next_newline(t, 0)] == a[next_newline(t, 0)]);
        }
        assert(t[a.len() as int] == '\n');
    }
    assert(t.subrange(0, a.len() as int) =~= a);
    lemma_lines_from_shift(t, a.len() as int + 1, 0);
    assert(t.subrange(a.len() as int + 1, t.len() as int) =~= b);
}

proof fn lemma_lines_without_newline(a: Seq<char>)
    requires
        a.len() > 0,
        forall|i: int| 0 <= i < a.len() ==> a[i] != '\n',
    ensures
        text_lines(a) == seq![a],
{
    lemma_next_newline_bounds(a, 0);
    if next_newline(a, 0) < a.len() {
        assert(a[next_newline(a, 0)] == '\n');
    }
    assert(a.subrange(0, a.len() as int) =~= a);
}

/// Windows line endings split lines exactly as Unix ones do: text without
/// carriage returns has the same lines, and so the same conversion, when
/// every line feed in it is preceded by a carriage return.
pub proof fn law_crlf_same_as_lf(srt: Seq<char>)
    requires
        forall|i: int| 0 <= i < srt.len() ==> srt[i] != '\r',
    ensures
        text_lines(with_crlf(srt)) == text_lines(srt),
        vtt_document(with_crlf(srt)) == vtt_document(srt),
    decreases srt.len(),
{
    lemma_next_newline_bounds(srt, 0);
    let e = next_newline(srt, 0);
    if e < srt.len() {
        let a = srt.take(e);
        let b = srt.skip(e + 1);
        assert forall|i: int| 0 <= i < b.len() implies b[i] != '\r' by {
            assert(b[i] == srt[e + 1 + i]);
        }
        law_crlf_same_as_lf(b);
        assert(srt =~= a + seq!['\n'] + b);
        lemma_lines_of_first_line(a, b);
        let a_cr = a + seq!['\r'];
        assert(with_crlf(srt) =~= a_cr + seq!['\n'] + with_crlf(b));
        assert forall|i: int| 0 <= i < a_cr.len() implies a_cr[i] != '\n' by {
            if i < a.len() {
                assert(a_cr[i] == srt[i]);
            }
        }
        lemma_lines_of_first_line(a_cr, with_crlf(b));
        assert(strip_cr(a_cr) =~= a);
        assert(strip_cr(a) == a) by {
            if a.len() > 0 {
                assert(a.last() == srt[e - 1]);
            }
        }
    }
}

} // verus!
