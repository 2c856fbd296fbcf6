use vstd::prelude::*;
use vstd::utf8::encode_utf8;

use vstd::string::StringExecFns;

use crate::text::{chars_of, push_char};

verus! {

// ---------------------------------------------------------------------------
// Which back end plays a dropped file.
// ---------------------------------------------------------------------------

/// How a dropped file is played.
#[derive(Clone, Copy, Debug, PartialEq, Eq, Structural)]
pub enum MediaKind {
    /// Decoded and played by the audio engine.
    Audio,
    /// Streamed to the embedded video element by the local server.
    Video,
}

/// The lowercase extensions that the audio engine plays.
pub open spec fn is_audio_extension(lower: Seq<char>) -> bool {
    ||| lower == seq!['m', 'p', '3']
    ||| lower == seq!['f', 'l', 'a', 'c']
    ||| lower == seq!['w', 'a', 'v']
    ||| lower == seq!['a', 'a', 'c']
    ||| lower == seq!['o', 'g', 'g']
}

pub open spec fn kind_of_lowercase(lower: Seq<char>) -> MediaKind {
    if is_audio_extension(lower) {
        MediaKind::Audio
    } else {
        MediaKind::Video
    }
}

/// ASCII lowercasing of one character.
pub open spec fn ascii_lower(c: char) -> char {
    if 'A' <= c <= 'Z' {
        ((c as u32) + 32) as char
    } else {
        c
    }
}

/// What `str::to_lowercase` returns on `s`.
pub uninterp spec fn lowercase(s: Seq<char>) -> Seq<char>;

/// `str::to_lowercase`: the Unicode lowercase mapping of the string. Its
/// result is named; on ASCII text the mapping is the ASCII one, which the
/// contract states.
#[verifier::external_body]
fn to_lowercase(s: &str) -> (lower: String)
    ensures
        lower@ == lowercase(s@),
        (forall|i: int| 0 <= i < s@.len() ==> (s@[i] as u32) < 128) ==> lower@ == s@.map_values(
            |c: char| ascii_lower(c),
        ),
{
    s.to_lowercase()
}

fn char_eq_at(s: &Vec<char>, lit: &[char]) -> (b: bool)
    ensures
        b == (s@ == lit@),
{
    if s.len() != lit.len() {
        return false;
    }
    let mut i: usize = 0;
    while i < s.len()
        invariant
            s.len() == lit.len(),
            0 <= i <= s.len(),
            forall|j: int| 0 <= j < i ==> s@[j] == lit@[j],
        decreases s.len() - i,
    {
        if s[i] != lit[i] {
            return false;
        }
        i = i + 1;
    }
    assert(s@ =~= lit@);
    true
}

/// The back end for a file whose extension, already lowercased, is `lower`.
pub fn media_kind_of_lowercase(lower: &str) -> (kind: MediaKind)
    ensures
        kind == kind_of_lowercase(lower@),
{
    let cs = chars_of(lower);
    let audio = char_eq_at(&cs, &['m', 'p', '3']) || char_eq_at(&cs, &['f', 'l', 'a', 'c'])
        || char_eq_at(&cs, &['w', 'a', 'v']) || char_eq_at(&cs, &['a', 'a', 'c'])
        || char_eq_at(&cs, &['o', 'g', 'g']);
    if audio {
        MediaKind::Audio
    } else {
        MediaKind::Video
    }
}

/// The back end for a file with extension `ext`: audio for `mp3`, `flac`,
/// `wav`, `aac` and `ogg` in any case, video otherwise.
pub fn media_kind_of_extension(ext: &str) -> (kind: MediaKind)
    ensures
        kind == kind_of_lowercase(lowercase(ext@)),
{
    let lower = to_lowercase(ext);
    media_kind_of_lowercase(lower.as_str())
}

/// A character that separates path components on some platform.
pub open spec fn is_separator(c: char) -> bool {
    c == '/' || c == '\\'
}

/// `path` ends in a file name of the form `<name>.<ext>`, where `<name>` is
/// not empty and `ext` is a non-empty run without dots or separators, and
/// `path` holds nothing that any platform reads as a prefix (see
/// `prefix_free`). Such a path's extension is `ext` on every platform.
pub open spec fn has_plain_extension(path: Seq<char>, ext: Seq<char>) -> bool {
    let k = path.len() - ext.len();
    &&& ext.len() > 0
    &&& k >= 2
    &&& path.subrange(k, path.len() as int) == ext
    &&& path[k - 1] == '.'
    &&& !is_separator(path[k - 2])
    &&& forall|i: int| 0 <= i < ext.len() ==> ext[i] != '.' && !is_separator(#[trigger] ext[i])
    &&& prefix_free(path)
}

/// `path` holds nothing that any platform reads as a prefix: no backslash,
/// no leading pair of slashes, and no drive (a letter and a colon) at its
/// start.
pub open spec fn prefix_free(path: Seq<char>) -> bool {
    &&& forall|i: int| 0 <= i < path.len() ==> #[trigger] path[i] != '\\'
    &&& !(path.len() >= 2 && path[0] == '/' && path[1] == '/')
    &&& !(path.len() >= 2 && is_ascii_letter(path[0]) && path[1] == ':')
}

/// An ASCII letter.
pub open spec fn is_ascii_letter(c: char) -> bool {
    ('a' <= c && c <= 'z') || ('A' <= c && c <= 'Z')
}

/// `path` holds no backslash, and after some slash in it there is no dot
/// but something other than slashes: its file name, if it has one, holds no
/// dot (as in `/music.v2/track`), on every platform.
pub open spec fn no_dot_in_file_name(path: Seq<char>) -> bool {
    &&& forall|i: int| 0 <= i < path.len() ==> #[trigger] path[i] != '\\'
    &&& exists|i: int|
        0 <= i < path.len() && #[trigger] path[i] == '/' && (forall|j: int| i < j < path.len() ==> path[j] != '.')
            && (exists|j: int| i < j < path.len() && path[j] != '/')
}

/// `path` holds no backslash and ends in a file name that starts with a dot
/// and holds no other (as in `/videos/.mp3`): a hidden file, which has no
/// extension on any platform.
pub open spec fn hidden_file_name(path: Seq<char>) -> bool {
    &&& forall|i: int| 0 <= i < path.len() ==> #[trigger] path[i] != '\\'
    &&& exists|k: int|
        0 <= k < path.len() - 1 && #[trigger] path[k] == '.' && (k == 0 || path[k - 1] == '/')
            && (forall|j: int| k < j < path.len() ==> path[j] != '.' && path[j] != '/')
}

/// `path` ends in a dot that follows neither a dot nor a slash (as in
/// `file.`), and holds nothing that a platform reads as a prefix: its
/// extension is empty on every platform.
pub open spec fn trailing_dot(path: Seq<char>) -> bool {
    &&& path.len() >= 2
    &&& path.last() == '.'
    &&& path[path.len() - 2] != '.'
    &&& path[path.len() - 2] != '/'
    &&& prefix_free(path)
}

/// The plain extension of `path`, when it has one.
pub open spec fn plain_extension(path: Seq<char>) -> Option<Seq<char>> {
    if exists|e: Seq<char>| has_plain_extension(path, e) {
        Some(choose|e: Seq<char>| has_plain_extension(path, e))
    } else {
        None
    }
}

proof fn lemma_plain_extension_unique(path: Seq<char>, e: Seq<char>)
    requires
        has_plain_extension(path, e),
    ensures
        plain_extension(path) == Some(e),
{
    let c = choose|x: Seq<char>| has_plain_extension(path, x);
    assert(has_plain_extension(path, c));
    let n = path.len() as int;
    if c.len() < e.len() {
        let j = e.len() - c.len() - 1;
        assert(e[j] == path[n - e.len() + j]);
        assert(path[n - c.len() - 1] == '.');
    } else if e.len() < c.len() {
        let j = c.len() - e.len() - 1;
        assert(c[j] == path[n - c.len() + j]);
        assert(path[n - e.len() - 1] == '.');
    }
    assert(c =~= e);
}

/// `std::path::Path::extension`: the part of the file name after its last
/// dot. The contract states facts that hold on every platform: the
/// extension holds no dot; a path without a dot, a path whose file name
/// holds no dot, and a hidden file have none; a file name ending in a dot
/// has an empty one; and a path of the plain form `has_plain_extension`
/// describes has that extension. Which part of other paths is their file
/// name depends on the platform's separators and prefixes and is left
/// unsaid.
#[verifier::external_body]
fn path_extension(path: &str) -> (ext: Option<String>)
    ensures
        ext matches Some(e) ==> !e@.contains('.'),
        !path@.contains('.') ==> ext is None,
        plain_extension(path@) is Some ==> ext is Some && ext->0@ == plain_extension(path@)->0,
        no_dot_in_file_name(path@) ==> ext is None,
        hidden_file_name(path@) ==> ext is None,
        trailing_dot(path@) ==> ext is Some && ext->0@.len() == 0,
{
    std::path::Path::new(path).extension().map(|e| e.to_string_lossy().into_owned())
}

/// `path` ends in a file name without a dot (not after a slash) and holds
/// nothing that a platform reads as a prefix (as in `/videos/clip`).
pub open spec fn bare_file_name(path: Seq<char>) -> bool {
    &&& path.len() > 0
    &&& path.last() != '/'
    &&& prefix_free(path)
    &&& exists|i: int|
        -1 <= i < path.len() - 1 && (i == -1 || #[trigger] path[i] == '/') && (forall|j: int|
            i < j < path.len() ==> path[j] != '.' && path[j] != '/')
}

/// `path` with its extension set to `ext` (non-empty): a plain extension is
/// replaced, and a bare file name gains one.
pub open spec fn with_extension_spec(path: Seq<char>, ext: Seq<char>) -> Seq<char> {
    match plain_extension(path) {
        Some(old) => path.take(path.len() - old.len()) + ext,
        None => path + seq!['.'] + ext,
    }
}

/// `std::path::Path::with_extension`: the path with the extension of its
/// file name replaced by `ext`, or added when it has none; it panics when
/// `ext` holds a separator, which `requires` rules out. The contract states
/// the result for a non-empty `ext` on paths of the plain forms
/// `has_plain_extension` and `bare_file_name` describe, where every
/// platform agrees on the file name; on other paths it is left unsaid.
#[verifier::external_body]
pub(crate) fn path_with_extension(path: &str, ext: &str) -> (result: String)
    requires
        forall|i: int| 0 <= i < ext@.len() ==> !is_separator(#[trigger] ext@[i]),
    ensures
        ext@.len() > 0 && (plain_extension(path@) is Some || bare_file_name(path@)) ==> result@
            == with_extension_spec(path@, ext@),
{
    std::path::Path::new(path).with_extension(ext).to_string_lossy().into_owned()
}

/// ASCII text.
pub open spec fn is_ascii_text(s: Seq<char>) -> bool {
    forall|i: int| 0 <= i < s.len() ==> (s[i] as u32) < 128
}

/// The back end for the dropped file at `path`, chosen by its extension: a
/// path without one, or with an empty one, plays as video, and a path with a
/// plain extension `ext` plays as audio exactly when `ext`, lowercased, is an
/// audio extension.
pub fn media_kind_of_path(path: &str) -> (kind: MediaKind)
    ensures
        !path@.contains('.') ==> kind == MediaKind::Video,
        no_dot_in_file_name(path@) ==> kind == MediaKind::Video,
        hidden_file_name(path@) ==> kind == MediaKind::Video,
        trailing_dot(path@) ==> kind == MediaKind::Video,
        forall|e: Seq<char>| #[trigger] has_plain_extension(path@, e) ==> kind == kind_of_lowercase(lowercase(e)),
        forall|e: Seq<char>|
            #[trigger] has_plain_extension(path@, e) && is_ascii_text(e) ==> kind == kind_of_lowercase(
                e.map_values(|c: char| ascii_lower(c)),
            ),
{
    let ext = match path_extension(path) {
        Some(e) => e,
        None => String::new(),
    };
    let lower = to_lowercase(ext.as_str());
    proof {
        if ext@.len() == 0 {
            assert(lower@ =~= Seq::<char>::empty());
        }
        assert forall|e: Seq<char>| #[trigger] has_plain_extension(path@, e) implies ext@ == e by {
            lemma_plain_extension_unique(path@, e);
        }
    }
    media_kind_of_lowercase(lower.as_str())
}

// ---------------------------------------------------------------------------
// The address of a video on the local server.
// ---------------------------------------------------------------------------

/// URL-safe bytes, which percent-encoding keeps.
pub open spec fn is_unreserved(b: u8) -> bool {
    ||| 48 <= b <= 57
    ||| 65 <= b <= 90
    ||| 97 <= b <= 122
    ||| b == 45
    ||| b == 46
    ||| b == 95
    ||| b == 126
}

/// An uppercase hexadecimal digit.
pub open spec fn hex_digit(d: u8) -> char {
    if d < 10 {
        (48 + d) as char
    } else {
        (55 + d) as char
    }
}

pub open spec fn encode_byte(b: u8) -> Seq<char> {
    if is_unreserved(b) {
        seq![b as char]
    } else {
        seq!['%', hex_digit(b / 16), hex_digit(b % 16)]
    }
}

/// Percent-encoding of a byte string.
pub open spec fn percent_encode(bytes: Seq<u8>) -> Seq<char>
    decreases bytes.len(),
{
    if bytes.len() == 0 {
        Seq::empty()
    } else {
        encode_byte(bytes[0]) + percent_encode(bytes.drop_first())
    }
}

/// `urlencoding::encode`: percent-encodes every byte of the UTF-8 text
/// except ASCII letters, digits and `-`, `.`, `_`, `~`, with uppercase hex
/// digits, as the crate documents and its source does.
#[verifier::external_body]
fn url_encode(text: &str) -> (encoded: String)
    ensures
        encoded@ == percent_encode(encode_utf8(text@)),
{
    urlencoding::encode(text).into_owned()
}

/// The decimal digits of `n`, without leading zeros.
pub open spec fn decimal(n: nat) -> Seq<char>
    decreases n,
{
    if n < 10 {
        seq![(48 + n) as char]
    } else {
        decimal(n / 10) + seq![(48 + n % 10) as char]
    }
}

/// Every extension other than `mp3`, `flac`, `wav`, `aac` and `ogg`
/// (lowercase) plays as video, and those five play as audio.
pub proof fn law_audio_extensions_exactly(lower: Seq<char>)
    ensures
        kind_of_lowercase(lower) == MediaKind::Audio <==> (lower =~= seq!['m', 'p', '3'] || lower =~= seq![
            'f',
            'l',
            'a',
            'c',
        ] || lower =~= seq!['w', 'a', 'v'] || lower =~= seq!['a', 'a', 'c'] || lower =~= seq!['o', 'g', 'g']),
{
}

/// The number a string of decimal digits denotes.
pub open spec fn digits_value(s: Seq<char>) -> int
    decreases s.len(),
{
    if s.len() == 0 {
        0
    } else {
        digits_value(s.drop_last()) * 10 + ((s.last() as int) - ('0' as int))
    }
}

/// `decimal(n)` is the base-10 numeral of `n`: non-empty, made of the digits
/// `0` to `9`, without a leading zero (unless `n` is zero), and reading it
/// back gives `n`.
pub proof fn law_decimal_is_numeral(n: nat)
    ensures
        decimal(n).len() > 0,
        forall|i: int| 0 <= i < decimal(n).len() ==> '0' <= #[trigger] decimal(n)[i] <= '9',
        n > 0 ==> decimal(n)[0] != '0',
        digits_value(decimal(n)) == n,
    decreases n,
{
    if n >= 10 {
        law_decimal_is_numeral(n / 10);
        let d = decimal(n / 10);
        let c = (48 + n % 10) as char;
        assert(decimal(n) == d + seq![c]);
        assert((d + seq![c]).drop_last() =~= d);
        assert((d + seq![c])[0] == d[0]);
        assert(forall|i: int| 0 <= i < d.len() ==> (d + seq![c])[i] == d[i]);
        assert((c as int) == 48 + n % 10);
        assert((d + seq![c]).last() == c);
        assert(digits_value(d + seq![c]) == digits_value(d) * 10 + ((c as int) - 48));
        assert((n / 10) * 10 + n % 10 == n) by (nonlinear_arith);
    } else {
        let c = (48 + n) as char;
        assert(seq![c].drop_last() =~= Seq::<char>::empty());
        assert((c as int) == 48 + n);
        assert(seq![c].last() == c);
        assert(digits_value(seq![c]) == digits_value(Seq::<char>::empty()) * 10 + ((c as int) - 48));
    }
}

fn push_decimal(out: &mut String, n: u16)
    ensures
        final(out)@ == old(out)@ + decimal(n as nat),
    decreases n,
{
    if n >= 10 {
        push_decimal(out, n / 10);
    }
    let d: u8 = (n % 10) as u8;
    push_char(out, (48u8 + d) as char);
    proof {
        if n >= 10 {
            assert(decimal(n as nat) == decimal((n / 10) as nat) + seq![(48 + n % 10) as char]);
        }
    }
}

pub open spec fn stream_url_spec(port: u16, path: Seq<char>) -> Seq<char> {
    seq!['h', 't', 't', 'p', ':', '/', '/', '1', '2', '7', '.', '0', '.', '0', '.', '1', ':']
        + decimal(port as nat) + seq!['/', 's', 't', 'r', 'e', 'a', 'm', '?', 'f', 'i', 'l', 'e', '=']
        + percent_encode(encode_utf8(path))
}

/// The address under which the local server on `port` streams the video at
/// `path`: `http://127.0.0.1:<port>/stream?file=<percent-encoded path>`.
pub fn stream_url(port: u16, path: &str) -> (url: String)
    ensures
        url@ == stream_url_spec(port, path@),
{
    let mut url = String::new();
    let head = ['h', 't', 't', 'p', ':', '/', '/', '1', '2', '7', '.', '0', '.', '0', '.', '1', ':'];
    let mut i: usize = 0;
    while i < head.len()
        invariant
            0 <= i <= head.len(),
            url@ == head@.take(i as int),
        decreases head.len() - i,
    {
        push_char(&mut url, head[i]);
        assert(head@.take(i + 1) == head@.take(i as int).push(head@[i as int]));
        i = i + 1;
    }
    assert(head@.take(head.len() as int) == head@);
    push_decimal(&mut url, port);
    let mid = ['/', 's', 't', 'r', 'e', 'a', 'm', '?', 'f', 'i', 'l', 'e', '='];
    let ghost before = url@;
    let mut j: usize = 0;
    while j < mid.len()
        invariant
            0 <= j <= mid.len(),
            url@ == before + mid@.take(j as int),
        decreases mid.len() - j,
    {
        push_char(&mut url, mid[j]);
        assert(mid@.take(j + 1) == mid@.take(j as int).push(mid@[j as int]));
        j = j + 1;
    }
    assert(mid@.take(mid.len() as int) == mid@);
    let encoded = url_encode(path);
    url.append(encoded.as_str());
    proof {
        assert(head@ =~= seq!['h', 't', 't', 'p', ':', '/', '/', '1', '2', '7', '.', '0', '.', '0', '.', '1', ':']);
        assert(mid@ =~= seq!['/', 's', 't', 'r', 'e', 'a', 'm', '?', 'f', 'i', 'l', 'e', '=']);
    }
    url
}

} // verus!
