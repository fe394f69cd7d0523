//! The decisions of the player engine: how a track's URL is fetched, how the
//! downloader's complaints are classified, what the transport state becomes
//! on each command, how the playback slots rotate, and when a stalled stream
//! is given up.
use vstd::prelude::*;
use crate::api::models::{PlayerStateLabel, Track};
use crate::text::{
    chars_of, concat_str, contains_seq, lines_of, lowercase, occurs_at, occurs_at_exec, parse_u32,
    parse_u32_chars, split_lines, starts_with_seq, str_contains, string_of, to_lowercase,
    trim, trim_chars, views_of,
};

verus! {

/// The ways in which YouTube refuses to serve a download.
#[derive(Debug, Clone, Copy, PartialEq, Eq, Structural)]
pub enum YouTubeBlockType {
    RateLimit,
    Captcha,
    BotDetected,
    IpBlocked,
}

/// The label of each block type.
pub open spec fn block_label(b: YouTubeBlockType) -> Seq<char> {
    match b {
        YouTubeBlockType::RateLimit => "rate_limit"@,
        YouTubeBlockType::Captcha => "captcha"@,
        YouTubeBlockType::BotDetected => "bot_detected"@,
        YouTubeBlockType::IpBlocked => "ip_blocked"@,
    }
}

impl YouTubeBlockType {
    /// The machine-readable label of the block type.
    pub fn as_str(&self) -> (r: &'static str)
        ensures
            r@ == block_label(*self),
    {
        match self {
            YouTubeBlockType::RateLimit => "rate_limit",
            YouTubeBlockType::Captcha => "captcha",
            YouTubeBlockType::BotDetected => "bot_detected",
            YouTubeBlockType::IpBlocked => "ip_blocked",
        }
    }
}

/// A download that YouTube refused, with the kind of refusal.
#[derive(Debug, Clone)]
pub struct YouTubeError {
    pub block_type: YouTubeBlockType,
    pub message: String,
}

impl YouTubeError {
    /// The text shown for the error: its message.
    pub fn to_string(&self) -> (r: String)
        ensures
            r@ == self.message@,
    {
        self.message.clone()
    }
}

/// Why the engine could not play a track.
#[derive(Debug)]
pub enum EngineError {
    YouTube(YouTubeError),
    Other(String),
}

impl EngineError {
    /// The text shown for the error: the YouTube error's message, or the
    /// other error's text.
    pub fn to_string(&self) -> (r: String)
        ensures
            r@ == match self {
                EngineError::YouTube(e) => e.message@,
                EngineError::Other(m) => m@,
            },
    {
        match self {
            EngineError::YouTube(e) => e.to_string(),
            EngineError::Other(m) => m.clone(),
        }
    }
}

/// The prefix of the error reported when a track cannot be downloaded.
pub open spec fn download_failure_prefix() -> Seq<char> {
    "Failed to download track: "@
}

/// The error that a failed download of a track becomes: a YouTube refusal is
/// passed on as it is; any other failure becomes `Other` with its text.
pub fn download_failure(blocked: Option<YouTubeError>, detail: &str) -> (r: EngineError)
    ensures
        match blocked {
            Some(e) => r == EngineError::YouTube(e),
            None => r matches EngineError::Other(m) && m@ == download_failure_prefix() + detail@,
        },
{
    match blocked {
        Some(e) => EngineError::YouTube(e),
        None => EngineError::Other(concat_str("Failed to download track: ", detail)),
    }
}

/// The refusal that the downloader's lowercased error output reports, if any.
pub open spec fn block_in(lower: Seq<char>) -> Option<YouTubeBlockType> {
    if contains_seq(lower, "http error 429"@) || contains_seq(lower, "429"@) {
        Some(YouTubeBlockType::RateLimit)
    } else if contains_seq(lower, "captcha"@) || contains_seq(lower, "playercaptchaviewmodel"@) {
        Some(YouTubeBlockType::Captcha)
    } else if contains_seq(lower, "403"@) || contains_seq(lower, "cloudflare"@) {
        Some(YouTubeBlockType::BotDetected)
    } else if contains_seq(lower, "no video formats found"@) || contains_seq(
        lower,
        "skipping player response"@,
    ) {
        Some(YouTubeBlockType::IpBlocked)
    } else {
        None
    }
}

/// `http error 429` holds `429`.
proof fn lemma_http_429(s: Seq<char>)
    requires
        contains_seq(s, "http error 429"@),
    ensures
        contains_seq(s, "429"@),
{
    reveal_strlit("http error 429");
    reveal_strlit("429");
    let i = choose|i: int| #[trigger] occurs_at(s, "http error 429"@, i);
    let long = "http error 429"@;
    assert(s.subrange(i, i + 14) == long);
    assert(s.subrange(i + 11, i + 14) =~= "429"@) by {
        assert forall|k: int| 0 <= k < 3 implies s.subrange(i + 11, i + 14)[k] == "429"@[k] by {
            assert(s.subrange(i, i + 14)[11 + k] == long[11 + k]);
        }
    }
    assert(occurs_at(s, "429"@, i + 11));
}

/// What the downloader's output (already lowercased) reports: `429` is a rate
/// limit; otherwise a captcha is a captcha; otherwise `403` or `cloudflare`
/// is bot detection; otherwise `no video formats found` or `skipping player
/// response` is an IP block; and output holding none of these texts (such as
/// `video unavailable`) is no block at all.
pub proof fn block_markers(lower: Seq<char>)
    ensures
        contains_seq(lower, "429"@) ==> block_in(lower) == Some(YouTubeBlockType::RateLimit),
        !contains_seq(lower, "429"@) && (contains_seq(lower, "captcha"@) || contains_seq(
            lower,
            "playercaptchaviewmodel"@,
        )) ==> block_in(lower) == Some(YouTubeBlockType::Captcha),
        !contains_seq(lower, "429"@) && !contains_seq(lower, "captcha"@) && !contains_seq(
            lower,
            "playercaptchaviewmodel"@,
        ) && (contains_seq(lower, "403"@) || contains_seq(lower, "cloudflare"@)) ==> block_in(
            lower,
        ) == Some(YouTubeBlockType::BotDetected),
        !contains_seq(lower, "429"@) && !contains_seq(lower, "captcha"@) && !contains_seq(
            lower,
            "playercaptchaviewmodel"@,
        ) && !contains_seq(lower, "403"@) && !contains_seq(lower, "cloudflare"@) && (contains_seq(
            lower,
            "no video formats found"@,
        ) || contains_seq(lower, "skipping player response"@)) ==> block_in(lower) == Some(
            YouTubeBlockType::IpBlocked,
        ),
        !contains_seq(lower, "429"@) && !contains_seq(lower, "captcha"@) && !contains_seq(
            lower,
            "playercaptchaviewmodel"@,
        ) && !contains_seq(lower, "403"@) && !contains_seq(lower, "cloudflare"@) && !contains_seq(
            lower,
            "no video formats found"@,
        ) && !contains_seq(lower, "skipping player response"@) ==> block_in(lower) is None,
{
    if contains_seq(lower, "http error 429"@) {
        lemma_http_429(lower);
    }
}

/// Classifies already lowercased downloader output.
pub fn classify_block(lower: &str) -> (r: Option<YouTubeBlockType>)
    ensures
        r == block_in(lower@),
{
    if str_contains(lower, "http error 429") || str_contains(lower, "429") {
        return Some(YouTubeBlockType::RateLimit);
    }
    if str_contains(lower, "captcha") || str_contains(lower, "playercaptchaviewmodel") {
        return Some(YouTubeBlockType::Captcha);
    }
    if str_contains(lower, "403") || str_contains(lower, "cloudflare") {
        return Some(YouTubeBlockType::BotDetected);
    }
    if str_contains(lower, "no video formats found") || str_contains(
        lower,
        "skipping player response",
    ) {
        return Some(YouTubeBlockType::IpBlocked);
    }
    None
}

/// The refusal that the downloader's error output reports, if any; the output
/// is compared without regard to case.
pub fn detect_youtube_block(stderr: &str) -> (r: Option<YouTubeBlockType>)
    ensures
        r == block_in(lowercase(stderr@)),
{
    let lower = to_lowercase(stderr);
    classify_block(lower.as_str())
}

/// A URL that names a YouTube video or a direct YouTube media stream.
pub open spec fn youtube_url(url: Seq<char>) -> bool {
    ||| contains_seq(url, "youtube.com/watch"@)
    ||| contains_seq(url, "youtu.be/"@)
    ||| contains_seq(url, "youtube.com/shorts/"@)
    ||| contains_seq(url, "googlevideo.com/videoplayback"@)
}

/// A URL of a media stream on YouTube's servers, playable without resolution.
pub open spec fn direct_stream_url(url: Seq<char>) -> bool {
    contains_seq(url, "googlevideo.com/videoplayback"@)
}

/// Whether `url` is a YouTube URL.
pub fn is_youtube_url(url: &str) -> (r: bool)
    ensures
        r == youtube_url(url@),
{
    str_contains(url, "youtube.com/watch") || str_contains(url, "youtu.be/") || str_contains(
        url,
        "youtube.com/shorts/",
    ) || str_contains(url, "googlevideo.com/videoplayback")
}

/// Whether `url` is a direct YouTube media stream.
pub fn is_direct_stream_url(url: &str) -> (r: bool)
    ensures
        r == direct_stream_url(url@),
{
    str_contains(url, "googlevideo.com/videoplayback")
}

/// Whether a URL must be fetched through `yt-dlp`: a YouTube page that is
/// not already a direct stream.
pub fn needs_ytdlp(url: &str) -> (r: bool)
    ensures
        r == (youtube_url(url@) && !direct_stream_url(url@)),
{
    is_youtube_url(url) && !is_direct_stream_url(url)
}

/// Which URLs go through `yt-dlp`: every URL naming a YouTube page
/// (`youtube.com/watch`, `youtu.be/` or `youtube.com/shorts/`, on any host
/// prefix such as `www.` or `m.`) that is not already a direct media stream
/// (`googlevideo.com/videoplayback`); a direct stream is a YouTube URL fetched
/// as it is; a URL holding none of these texts is no YouTube URL.
pub proof fn youtube_pages_need_ytdlp(url: Seq<char>)
    ensures
        (contains_seq(url, "youtube.com/watch"@) || contains_seq(url, "youtu.be/"@) || contains_seq(
            url,
            "youtube.com/shorts/"@,
        )) && !contains_seq(url, "googlevideo.com/videoplayback"@) ==> youtube_url(url)
            && !direct_stream_url(url),
        contains_seq(url, "googlevideo.com/videoplayback"@) ==> youtube_url(url) && direct_stream_url(
            url,
        ),
        !contains_seq(url, "youtube.com/watch"@) && !contains_seq(url, "youtu.be/"@)
            && !contains_seq(url, "youtube.com/shorts/"@) && !contains_seq(
            url,
            "googlevideo.com/videoplayback"@,
        ) ==> !youtube_url(url),
{
}

/// Where a track's audio is read from without the network: a `file://` URL
/// names the path after the scheme; a URL without a scheme that is an
/// absolute path on the platform the server runs on (`is_absolute`, as
/// `Path::is_absolute` reports it: `/music/a.wav` on Unix, `C:\music\a.wav`
/// on Windows) names itself.
pub open spec fn local_source(url: Seq<char>, is_absolute: bool) -> Option<Seq<char>> {
    if starts_with_seq(url, "file://"@) {
        Some(url.skip(7))
    } else if !contains_seq(url, "://"@) && is_absolute {
        Some(url)
    } else {
        None
    }
}

/// The local path that `url` names, if any; `is_absolute` says whether `url`,
/// taken as a path, is absolute on this platform.
pub fn local_source_path(url: &str, is_absolute: bool) -> (r: Option<String>)
    ensures
        match r {
            Some(p) => local_source(url@, is_absolute) == Some(p@),
            None => local_source(url@, is_absolute) is None,
        },
{
    let v = chars_of(url);
    let scheme = chars_of("file://");
    proof {
        reveal_strlit("file://");
    }
    if occurs_at_exec(v.as_slice(), scheme.as_slice(), 0) {
        let mut rest: Vec<char> = Vec::new();
        let mut i: usize = 7;
        while i < v.len()
            invariant
                7 <= i <= v.len(),
                rest@ == v@.subrange(7, i as int),
            decreases v.len() - i,
        {
            rest.push(v[i]);
            assert(v@.subrange(7, i as int).push(v@[i as int]) =~= v@.subrange(7, i + 1));
            i = i + 1;
        }
        assert(v@.skip(7) =~= v@.subrange(7, v.len() as int));
        return Some(string_of(rest.as_slice()));
    }
    if !str_contains(url, "://") && is_absolute {
        return Some(string_of(v.as_slice()));
    }
    None
}

/// A byte with ASCII upper-case letters mapped to lower case.
pub open spec fn ascii_lower(b: u8) -> u8 {
    if 65 <= b <= 90 {
        (b + 32) as u8
    } else {
        b
    }
}

/// The first five bytes of a document in markup, compared without regard to
/// ASCII case: the codes of `<!doc`, `<html` or `<?xml` (so `<!DOCTYPE` and
/// `<HTML` count too).
pub open spec fn markup_prefix(p: Seq<u8>) -> bool {
    let q = p.map_values(|b: u8| ascii_lower(b));
    ||| q == seq![60u8, 33u8, 100u8, 111u8, 99u8]
    ||| q == seq![60u8, 104u8, 116u8, 109u8, 108u8]
    ||| q == seq![60u8, 63u8, 120u8, 109u8, 108u8]
}

/// `b` with an ASCII upper-case letter mapped to lower case.
fn lower_byte(b: u8) -> (r: u8)
    ensures
        r == ascii_lower(b),
{
    if 65 <= b && b <= 90 {
        b + 32
    } else {
        b
    }
}

/// Whether downloaded bytes are a web page rather than audio: they begin
/// with `<!doc`, `<html` or `<?xml`, in any ASCII case.
pub fn looks_like_markup(bytes: &[u8]) -> (r: bool)
    ensures
        r == (bytes.len() >= 5 && markup_prefix(bytes@.take(5))),
{
    if bytes.len() < 5 {
        return false;
    }
    let b0 = lower_byte(bytes[0]);
    let b1 = lower_byte(bytes[1]);
    let b2 = lower_byte(bytes[2]);
    let b3 = lower_byte(bytes[3]);
    let b4 = lower_byte(bytes[4]);
    assert(bytes@.take(5).map_values(|b: u8| ascii_lower(b)) =~= seq![b0, b1, b2, b3, b4]);
    (b0 == 60u8 && b1 == 33u8 && b2 == 100u8 && b3 == 111u8 && b4 == 99u8) || (b0 == 60u8 && b1
        == 104u8 && b2 == 116u8 && b3 == 109u8 && b4 == 108u8) || (b0 == 60u8 && b1 == 63u8 && b2
        == 120u8 && b3 == 109u8 && b4 == 108u8)
}

/// Whether a `Content-Type` header announces an HTML page (compared without
/// regard to case).
pub fn is_html_content_type(content_type: &str) -> (r: bool)
    ensures
        r == contains_seq(lowercase(content_type@), "text/html"@),
{
    let lower = to_lowercase(content_type);
    str_contains(lower.as_str(), "text/html")
}

/// The first line of `lines` that holds more than white space, trimmed.
pub open spec fn first_nonempty(lines: Seq<Seq<char>>) -> Option<Seq<char>>
    decreases lines.len(),
{
    if lines.len() == 0 {
        None
    } else if trim(lines[0]).len() > 0 {
        Some(trim(lines[0]))
    } else {
        first_nonempty(lines.drop_first())
    }
}

/// The stream URL that `yt-dlp -g` printed: its first non-blank line, trimmed.
pub fn first_nonempty_line(output: &str) -> (r: Option<String>)
    ensures
        match r {
            Some(l) => first_nonempty(split_lines(output@)) == Some(l@),
            None => first_nonempty(split_lines(output@)) is None,
        },
{
    let v = chars_of(output);
    let lines = lines_of(v.as_slice());
    let ghost all = views_of(lines@);
    let mut i: usize = 0;
    assert(all.skip(0) =~= all);
    while i < lines.len()
        invariant
            i <= lines.len(),
            all == views_of(lines@),
            all == split_lines(output@),
            first_nonempty(all) == first_nonempty(all.skip(i as int)),
        decreases lines.len() - i,
    {
        let t = trim_chars(lines[i].as_slice());
        assert(all.skip(i as int)[0] == lines@[i as int]@);
        assert(all.skip(i as int).drop_first() =~= all.skip(i + 1));
        if t.len() > 0 {
            return Some(string_of(t.as_slice()));
        }
        i = i + 1;
    }
    None
}

/// The text after the last `c` in `s` (all of `s` when it holds no `c`), as
/// `s.rsplit(c).next()` gives it.
pub open spec fn after_last(s: Seq<char>, c: char) -> Seq<char>
    decreases s.len(),
{
    if s.len() == 0 {
        s
    } else if s.last() == c {
        seq![]
    } else {
        after_last(s.drop_last(), c).push(s.last())
    }
}

/// The characters after the last `c` in `s`.
pub fn after_last_chars(s: &[char], c: char) -> (r: Vec<char>)
    ensures
        r@ == after_last(s@, c),
{
    let mut j: usize = s.len();
    assert(s@.take(s.len() as int) =~= s@);
    assert(s@.skip(s.len() as int) =~= Seq::<char>::empty());
    while j > 0 && s[j - 1] != c
        invariant
            j <= s.len(),
            after_last(s@, c) == after_last(s@.take(j as int), c) + s@.skip(j as int),
        decreases j,
    {
        proof {
            let t = s@.take(j as int);
            assert(t.drop_last() =~= s@.take(j - 1));
            assert(t.last() == s@[j - 1]);
            assert(after_last(t.drop_last(), c).push(s@[j - 1]) + s@.skip(j as int)
                =~= after_last(t.drop_last(), c) + s@.skip(j - 1));
        }
        j = j - 1;
    }
    proof {
        let t = s@.take(j as int);
        if j > 0 {
            assert(t.last() == s@[j - 1]);
        }
        assert(after_last(t, c) =~= Seq::<char>::empty());
        assert(after_last(s@, c) =~= s@.skip(j as int));
    }
    let mut r: Vec<char> = Vec::new();
    let mut k: usize = j;
    while k < s.len()
        invariant
            j <= k <= s.len(),
            r@ == s@.subrange(j as int, k as int),
        decreases s.len() - k,
    {
        r.push(s[k]);
        assert(s@.subrange(j as int, k as int).push(s@[k as int]) =~= s@.subrange(
            j as int,
            k + 1,
        ));
        k = k + 1;
    }
    assert(s@.skip(j as int) =~= s@.subrange(j as int, s.len() as int));
    r
}

/// The name under which the server's audio stream appears in the sound server.
pub open spec fn stream_name() -> Seq<char> {
    "l337-audio-server"@
}

/// What the scan of `pactl list sink-inputs` output knows of the block being
/// read: the sink-input index announced by its header, whether one of its
/// `application.name` / `node.name` lines names this server, and whether it
/// has shown its `Volume:` line.
pub struct SinkScan {
    pub index: Option<u32>,
    pub ours: bool,
    pub has_volume: bool,
}

/// One step of the scan, after reading the trimmed line `line`: a header
/// `Sink Input #<n>` starts a new block; a name line that names this server
/// marks the block as ours; a `Volume:` line (as `pactl` prints it) marks
/// the block as having a volume. The order of the lines within a block does
/// not matter.
pub open spec fn scan_step(line: Seq<char>, st: SinkScan) -> SinkScan {
    if starts_with_seq(line, "Sink Input #"@) {
        SinkScan { index: parse_u32(trim(after_last(line, '#'))), ours: false, has_volume: false }
    } else if starts_with_seq(line, "application.name ="@) || starts_with_seq(
        line,
        "node.name ="@,
    ) {
        SinkScan { ours: st.ours || contains_seq(line, stream_name()), ..st }
    } else if starts_with_seq(line, "Volume:"@) {
        SinkScan { has_volume: true, ..st }
    } else {
        st
    }
}

/// The sink input whose volume is to be set: the index of the first block
/// that names this server and has a volume, found as soon as the block has
/// shown both.
pub open spec fn scan_sink_inputs(lines: Seq<Seq<char>>, st: SinkScan) -> Option<u32>
    decreases lines.len(),
{
    if lines.len() == 0 {
        None
    } else {
        let next = scan_step(trim(lines[0]), st);
        if next.ours && next.has_volume && next.index is Some {
            next.index
        } else {
            scan_sink_inputs(lines.drop_first(), next)
        }
    }
}

/// The state of the scan before the first line.
pub open spec fn scan_start() -> SinkScan {
    SinkScan { index: None, ours: false, has_volume: false }
}

/// A line of `pactl` output that names a stream (`application.name = ...` or
/// `node.name = ...`) and holds this server's name anywhere in it, quoted or
/// not (as in `"ALSA plug-in [l337-audio-server]"`).
pub open spec fn names_this_server(line: Seq<char>) -> bool {
    &&& (starts_with_seq(line, "application.name ="@) || starts_with_seq(line, "node.name ="@))
    &&& contains_seq(line, "l337-audio-server"@)
}

proof fn lemma_first_char(line: Seq<char>, p: Seq<char>)
    requires
        starts_with_seq(line, p),
        p.len() > 0,
    ensures
        line.len() > 0,
        line[0] == p[0],
{
    assert(line.subrange(0, p.len() as int)[0] == line[0]);
}

proof fn lemma_marker_chars()
    ensures
        "Sink Input #"@.len() > 0 && "Sink Input #"@[0] == 'S',
        "application.name ="@.len() > 0 && "application.name ="@[0] == 'a',
        "node.name ="@.len() > 0 && "node.name ="@[0] == 'n',
        "Volume:"@.len() > 0 && "Volume:"@[0] == 'V',
{
    reveal_strlit("Sink Input #");
    reveal_strlit("application.name =");
    reveal_strlit("node.name =");
    reveal_strlit("Volume:");
}

/// Reading a line that names this server marks its block as ours, and
/// changes nothing else; reading the block's `Volume:` line marks that it has
/// a volume, and changes nothing else.
pub proof fn scan_marks_block(line: Seq<char>, st: SinkScan)
    ensures
        names_this_server(line) ==> scan_step(line, st) == (SinkScan { ours: true, ..st }),
        starts_with_seq(line, "Volume:"@) ==> scan_step(line, st) == (SinkScan {
            has_volume: true,
            ..st
        }),
{
    lemma_marker_chars();
    if names_this_server(line) {
        if starts_with_seq(line, "application.name ="@) {
            lemma_first_char(line, "application.name ="@);
        } else {
            lemma_first_char(line, "node.name ="@);
        }
        if starts_with_seq(line, "Sink Input #"@) {
            lemma_first_char(line, "Sink Input #"@);
        }
    }
    if starts_with_seq(line, "Volume:"@) {
        lemma_first_char(line, "Volume:"@);
        if starts_with_seq(line, "Sink Input #"@) {
            lemma_first_char(line, "Sink Input #"@);
        }
        if starts_with_seq(line, "application.name ="@) {
            lemma_first_char(line, "application.name ="@);
        }
        if starts_with_seq(line, "node.name ="@) {
            lemma_first_char(line, "node.name ="@);
        }
    }
}

/// A sink-input block made of its header `Sink Input #<k>`, its `Volume:`
/// line and a line naming this server (in either order) yields `k`, whatever
/// the scan saw before the block and whatever follows it.
pub proof fn server_block_is_found(lines: Seq<Seq<char>>, st: SinkScan, k: u32)
    requires
        lines.len() >= 3,
        starts_with_seq(trim(lines[0]), "Sink Input #"@),
        parse_u32(trim(after_last(trim(lines[0]), '#'))) == Some(k),
        (starts_with_seq(trim(lines[1]), "Volume:"@) && names_this_server(trim(lines[2]))) || (
        names_this_server(trim(lines[1])) && starts_with_seq(trim(lines[2]), "Volume:"@)),
    ensures
        scan_sink_inputs(lines, st) == Some(k),
{
    let s1 = scan_step(trim(lines[0]), st);
    assert(s1 == SinkScan { index: Some(k), ours: false, has_volume: false });
    let l1 = lines.drop_first();
    assert(l1[0] == lines[1]);
    let l2 = l1.drop_first();
    assert(l2[0] == lines[2]);
    scan_marks_block(trim(lines[1]), s1);
    let s2 = scan_step(trim(lines[1]), s1);
    scan_marks_block(trim(lines[2]), s2);
    assert(scan_sink_inputs(lines, st) == scan_sink_inputs(l1, s1));
    assert(scan_sink_inputs(l1, s1) == scan_sink_inputs(l2, s2));
}

/// The index of this server's sink input in the output of
/// `pactl list sink-inputs`, if the output lists it.
pub fn find_sink_input(output: &str) -> (r: Option<u32>)
    ensures
        r == scan_sink_inputs(split_lines(output@), scan_start()),
{
    let v = chars_of(output);
    let lines = lines_of(v.as_slice());
    let ghost all = views_of(lines@);
    let header = chars_of("Sink Input #");
    let app_name = chars_of("application.name =");
    let node_name = chars_of("node.name =");
    let name = chars_of("l337-audio-server");
    let volume = chars_of("Volume:");
    let mut index: Option<u32> = None;
    let mut ours = false;
    let mut has_volume = false;
    let mut i: usize = 0;
    assert(all.skip(0) =~= all);
    while i < lines.len()
        invariant
            i <= lines.len(),
            all == views_of(lines@),
            all == split_lines(output@),
            header@ == "Sink Input #"@,
            app_name@ == "application.name ="@,
            node_name@ == "node.name ="@,
            name@ == stream_name(),
            volume@ == "Volume:"@,
            scan_sink_inputs(all, scan_start()) == scan_sink_inputs(
                all.skip(i as int),
                SinkScan { index, ours, has_volume },
            ),
        decreases lines.len() - i,
    {
        let line = trim_chars(lines[i].as_slice());
        assert(all.skip(i as int)[0] == lines@[i as int]@);
        assert(all.skip(i as int).drop_first() =~= all.skip(i + 1));
        if occurs_at_exec(line.as_slice(), header.as_slice(), 0) {
            let tail = after_last_chars(line.as_slice(), '#');
            let digits = trim_chars(tail.as_slice());
            index = parse_u32_chars(digits.as_slice());
            ours = false;
            has_volume = false;
        } else if occurs_at_exec(line.as_slice(), app_name.as_slice(), 0) || occurs_at_exec(
            line.as_slice(),
            node_name.as_slice(),
            0,
        ) {
            ours = ours || crate::text::contains_chars(line.as_slice(), name.as_slice());
        } else if occurs_at_exec(line.as_slice(), volume.as_slice(), 0) {
            has_volume = true;
        }
        if ours && has_volume {
            if let Some(idx) = index {
                return Some(idx);
            }
        }
        i = i + 1;
    }
    None
}

/// The track that a client pushed into the current slot: it has no stream
/// URL and no known duration.
pub fn pushed_track(track_id: &str, title: Option<String>, artist: Option<String>) -> (r: Track)
    ensures
        r.track_id@ == track_id@,
        r.stream_url@ == Seq::<char>::empty(),
        r.title == title,
        r.artist == artist,
        r.duration is None,
{
    Track {
        track_id: track_id.to_owned(),
        stream_url: String::new(),
        title,
        artist,
        duration: None,
    }
}

/// What a pause request does to the output stream.
#[derive(Debug, Clone, Copy, PartialEq, Eq, Structural)]
pub enum PauseCommand {
    Pause,
    Resume,
    Nothing,
}

/// A pause request toggles: it pauses what plays and resumes what is paused;
/// a stopped player is left alone.
pub open spec fn pause_command_for(state: PlayerStateLabel) -> PauseCommand {
    match state {
        PlayerStateLabel::Playing => PauseCommand::Pause,
        PlayerStateLabel::Paused => PauseCommand::Resume,
        PlayerStateLabel::Stopped => PauseCommand::Nothing,
    }
}

/// The transport state of the player: what it plays, how long that is, and
/// where it started playing from.
pub struct Playback {
    pub state: PlayerStateLabel,
    pub current_track: Option<Track>,
    pub duration_sec: Option<u64>,
    pub position_sec: u64,
}

impl Playback {
    /// A stopped player with nothing loaded.
    pub fn new() -> (r: Playback)
        ensures
            r.state == PlayerStateLabel::Stopped,
            r.current_track is None,
            r.duration_sec is None,
            r.position_sec == 0,
    {
        Playback {
            state: PlayerStateLabel::Stopped,
            current_track: None,
            duration_sec: None,
            position_sec: 0,
        }
    }

    /// Stops playback: the position returns to the start; the track stays
    /// the current one.
    pub fn stop(&mut self)
        ensures
            final(self).state == PlayerStateLabel::Stopped,
            final(self).position_sec == 0,
            final(self).current_track == old(self).current_track,
            final(self).duration_sec == old(self).duration_sec,
    {
        self.position_sec = 0;
        self.state = PlayerStateLabel::Stopped;
    }

    /// Pauses playback.
    pub fn pause(&mut self)
        ensures
            final(self).state == PlayerStateLabel::Paused,
            final(self).position_sec == old(self).position_sec,
            final(self).current_track == old(self).current_track,
            final(self).duration_sec == old(self).duration_sec,
    {
        self.state = PlayerStateLabel::Paused;
    }

    /// Resumes playback.
    pub fn resume(&mut self)
        ensures
            final(self).state == PlayerStateLabel::Playing,
            final(self).position_sec == old(self).position_sec,
            final(self).current_track == old(self).current_track,
            final(self).duration_sec == old(self).duration_sec,
    {
        self.state = PlayerStateLabel::Playing;
    }

    /// Handles a pause request, and says what to do to the output stream.
    pub fn toggle_pause(&mut self) -> (r: PauseCommand)
        ensures
            r == pause_command_for(old(self).state),
            final(self).state == match r {
                PauseCommand::Pause => PlayerStateLabel::Paused,
                PauseCommand::Resume => PlayerStateLabel::Playing,
                PauseCommand::Nothing => old(self).state,
            },
            final(self).position_sec == old(self).position_sec,
            final(self).current_track == old(self).current_track,
            final(self).duration_sec == old(self).duration_sec,
    {
        match self.state {
            PlayerStateLabel::Playing => {
                self.pause();
                PauseCommand::Pause
            },
            PlayerStateLabel::Paused => {
                self.resume();
                PauseCommand::Resume
            },
            PlayerStateLabel::Stopped => PauseCommand::Nothing,
        }
    }

    /// Stops what plays and makes `track` the current track.
    pub fn begin_track(&mut self, track: Track)
        ensures
            final(self).state == PlayerStateLabel::Stopped,
            final(self).position_sec == 0,
            final(self).current_track == Some(track),
            final(self).duration_sec == old(self).duration_sec,
    {
        self.stop();
        self.current_track = Some(track);
    }

    /// Playback of a freshly loaded track of `duration_sec` seconds starts
    /// from its beginning.
    pub fn started(&mut self, duration_sec: Option<u64>)
        ensures
            final(self).state == PlayerStateLabel::Playing,
            final(self).position_sec == 0,
            final(self).duration_sec == duration_sec,
            final(self).current_track == old(self).current_track,
    {
        self.duration_sec = duration_sec;
        self.position_sec = 0;
        self.state = PlayerStateLabel::Playing;
    }

    /// Playback resumes at `position_sec`, with `remaining_sec` seconds left
    /// to play.
    pub fn seeked(&mut self, position_sec: u64, remaining_sec: Option<u64>)
        ensures
            final(self).state == PlayerStateLabel::Playing,
            final(self).position_sec == position_sec,
            final(self).duration_sec == remaining_sec,
            final(self).current_track == old(self).current_track,
    {
        self.position_sec = position_sec;
        self.duration_sec = remaining_sec;
        self.state = PlayerStateLabel::Playing;
    }
}

/// The sample at which playback resumes when seeking to `position` seconds
/// in interleaved audio of `rate` frames per second and `channels` channels:
/// `position * rate * channels`, or the end of the `len` samples when that
/// lies beyond them, so that a seek past the end leaves nothing to play.
pub fn seek_split_point(position: u64, rate: u32, channels: u16, len: usize) -> (r: usize)
    requires
        position * rate <= u64::MAX,
        position * rate * channels <= u64::MAX,
    ensures
        r == if position * rate * channels < len {
            position * rate * channels
        } else {
            len as int
        },
{
    let target: u64 = position * (rate as u64);
    assert(target * channels == position * rate * channels) by (nonlinear_arith)
        requires
            target == position * rate,
    ;
    let start: u64 = target * (channels as u64);
    if start < len as u64 {
        start as usize
    } else {
        len
    }
}

/// One of the three files that hold the previous, current and next track.
#[derive(Debug, Clone, Copy, PartialEq, Eq, Structural)]
pub enum Slot {
    Prev,
    Current,
    Next,
}

/// The name of each slot.
pub open spec fn slot_label(slot: Slot) -> Seq<char> {
    match slot {
        Slot::Prev => "prev"@,
        Slot::Current => "current"@,
        Slot::Next => "next"@,
    }
}

/// The name of a slot, from which its file name is made.
pub fn slot_name(slot: Slot) -> (r: &'static str)
    ensures
        r@ == slot_label(slot),
{
    match slot {
        Slot::Prev => "prev",
        Slot::Current => "current",
        Slot::Next => "next",
    }
}

/// Which slot files exist.
#[derive(Debug, Clone, Copy, PartialEq, Eq, Structural)]
pub struct SlotPresence {
    pub prev: bool,
    pub current: bool,
    pub next: bool,
}

/// A file rename from one slot to another.
#[derive(Debug, Clone, Copy, PartialEq, Eq, Structural)]
pub struct SlotMove {
    pub from: Slot,
    pub to: Slot,
}

/// The contents of the three slot files; `None` where a file is absent.
pub struct SlotFiles {
    pub prev: Option<Seq<u8>>,
    pub current: Option<Seq<u8>>,
    pub next: Option<Seq<u8>>,
}

/// The contents of one slot.
pub open spec fn slot_content(f: SlotFiles, s: Slot) -> Option<Seq<u8>> {
    match s {
        Slot::Prev => f.prev,
        Slot::Current => f.current,
        Slot::Next => f.next,
    }
}

/// `f` with slot `s` holding `c`.
pub open spec fn with_slot(f: SlotFiles, s: Slot, c: Option<Seq<u8>>) -> SlotFiles {
    match s {
        Slot::Prev => SlotFiles { prev: c, ..f },
        Slot::Current => SlotFiles { current: c, ..f },
        Slot::Next => SlotFiles { next: c, ..f },
    }
}

/// The effect of a rename on the slot files: the target takes the source's
/// contents and the source disappears; renaming a missing file changes nothing.
pub open spec fn apply_move(f: SlotFiles, m: SlotMove) -> SlotFiles {
    match slot_content(f, m.from) {
        Some(c) => with_slot(with_slot(f, m.from, None), m.to, Some(c)),
        None => f,
    }
}

/// The effect of renames done one after another.
pub open spec fn apply_moves(f: SlotFiles, ms: Seq<SlotMove>) -> SlotFiles
    decreases ms.len(),
{
    if ms.len() == 0 {
        f
    } else {
        apply_moves(apply_move(f, ms[0]), ms.drop_first())
    }
}

/// Which of the slot files exist.
pub open spec fn presence_of(f: SlotFiles) -> SlotPresence {
    SlotPresence { prev: f.prev is Some, current: f.current is Some, next: f.next is Some }
}

/// Skipping forward: the current track (if any) becomes the previous one and
/// the next track becomes current.
pub open spec fn after_next(f: SlotFiles) -> SlotFiles {
    SlotFiles {
        prev: if f.current is Some {
            f.current
        } else {
            f.prev
        },
        current: f.next,
        next: None,
    }
}

/// Skipping back: the current track (if any) becomes the next one and the
/// previous track becomes current.
pub open spec fn after_previous(f: SlotFiles) -> SlotFiles {
    SlotFiles {
        next: if f.current is Some {
            f.current
        } else {
            f.next
        },
        current: f.prev,
        prev: None,
    }
}

/// The renames that skip to the next track; `None` when no next track is cached.
pub fn plan_next(p: SlotPresence) -> (r: Option<Vec<SlotMove>>)
    ensures
        r is None <==> !p.next,
        r matches Some(ms) ==> forall|f: SlotFiles| #[trigger]
            presence_of(f) == p ==> apply_moves(f, ms@) == after_next(f),
{
    if !p.next {
        return None;
    }
    let mut ms: Vec<SlotMove> = Vec::new();
    if p.current {
        ms.push(SlotMove { from: Slot::Current, to: Slot::Prev });
    }
    ms.push(SlotMove { from: Slot::Next, to: Slot::Current });
    proof {
        assert forall|f: SlotFiles| #[trigger] presence_of(f) == p implies apply_moves(f, ms@)
            == after_next(f) by {
            let m1 = SlotMove { from: Slot::Current, to: Slot::Prev };
            let m2 = SlotMove { from: Slot::Next, to: Slot::Current };
            if p.current {
                assert(ms@ =~= seq![m1, m2]);
                let g = apply_move(f, m1);
                assert(g == SlotFiles { prev: f.current, current: None, next: f.next });
                let h = apply_move(g, m2);
                assert(h == after_next(f));
                assert(seq![m1, m2].drop_first() =~= seq![m2]);
                assert(seq![m2].drop_first() =~= Seq::<SlotMove>::empty());
                assert(apply_moves(h, Seq::<SlotMove>::empty()) == h);
                assert(apply_moves(g, seq![m2]) == h);
            } else {
                assert(ms@ =~= seq![m2]);
                assert(seq![m2].drop_first() =~= Seq::<SlotMove>::empty());
                let h = apply_move(f, m2);
                assert(h == after_next(f));
                assert(apply_moves(h, Seq::<SlotMove>::empty()) == h);
            }
        }
    }
    Some(ms)
}

/// The renames that skip back to the previous track; `None` when no previous
/// track is cached.
pub fn plan_previous(p: SlotPresence) -> (r: Option<Vec<SlotMove>>)
    ensures
        r is None <==> !p.prev,
        r matches Some(ms) ==> forall|f: SlotFiles| #[trigger]
            presence_of(f) == p ==> apply_moves(f, ms@) == after_previous(f),
{
    if !p.prev {
        return None;
    }
    let mut ms: Vec<SlotMove> = Vec::new();
    if p.current {
        ms.push(SlotMove { from: Slot::Current, to: Slot::Next });
    }
    ms.push(SlotMove { from: Slot::Prev, to: Slot::Current });
    proof {
        assert forall|f: SlotFiles| #[trigger] presence_of(f) == p implies apply_moves(f, ms@)
            == after_previous(f) by {
            let m1 = SlotMove { from: Slot::Current, to: Slot::Next };
            let m2 = SlotMove { from: Slot::Prev, to: Slot::Current };
            if p.current {
                assert(ms@ =~= seq![m1, m2]);
                let g = apply_move(f, m1);
                assert(g == SlotFiles { prev: f.prev, current: None, next: f.current });
                let h = apply_move(g, m2);
                assert(h == after_previous(f));
                assert(seq![m1, m2].drop_first() =~= seq![m2]);
                assert(seq![m2].drop_first() =~= Seq::<SlotMove>::empty());
                assert(apply_moves(h, Seq::<SlotMove>::empty()) == h);
                assert(apply_moves(g, seq![m2]) == h);
            } else {
                assert(ms@ =~= seq![m2]);
                assert(seq![m2].drop_first() =~= Seq::<SlotMove>::empty());
                let h = apply_move(f, m2);
                assert(h == after_previous(f));
                assert(apply_moves(h, Seq::<SlotMove>::empty()) == h);
            }
        }
    }
    Some(ms)
}

/// How many times the streaming decoder looks for the first downloaded bytes,
/// half a second apart.
pub const DATA_WAIT_ATTEMPTS: u32 = 120;

/// How many times it tries to recognise the stream's format, half a second apart.
pub const PROBE_ATTEMPTS: u32 = 60;

/// What to do after a failed attempt.
#[derive(Debug, Clone, Copy, PartialEq, Eq, Structural)]
pub enum RetryAction {
    /// Pause briefly and try again.
    Retry,
    /// No attempts remain.
    GiveUp,
}

/// After failed attempt number `attempt` (counted from zero) out of `limit`:
/// try again while attempts remain.
pub fn retry_step(attempt: u32, limit: u32) -> (r: RetryAction)
    ensures
        r == if attempt + 1 < limit {
            RetryAction::Retry
        } else {
            RetryAction::GiveUp
        },
{
    if attempt < limit && limit - attempt > 1 {
        RetryAction::Retry
    } else {
        RetryAction::GiveUp
    }
}

/// After how many stalls in a row a stream is given up.
pub const MAX_STALL_CYCLES: u32 = 20;

/// What to do after a stall of the streaming decoder.
#[derive(Debug, Clone, Copy, PartialEq, Eq, Structural)]
pub enum StallAction {
    /// Sleep briefly and try again.
    Wait,
    /// Stop decoding the stream.
    GiveUp,
}

/// Counts the stalls of a stream that is decoded while it downloads.
pub struct StallMonitor {
    stall_cycles: u32,
    last_file_size: u64,
}

impl StallMonitor {
    /// Stalls in a row so far.
    pub closed spec fn stalls(&self) -> int {
        self.stall_cycles as int
    }

    /// The size of the downloaded file when it last grew.
    pub closed spec fn last_file_size(&self) -> int {
        self.last_file_size as int
    }

    /// A monitor for a file of `file_size` bytes, with no stall yet.
    pub fn new(file_size: u64) -> (r: StallMonitor)
        ensures
            r.stalls() == 0,
            r.last_file_size() == file_size,
    {
        StallMonitor { stall_cycles: 0, last_file_size: file_size }
    }

    /// Stalls in a row so far.
    pub fn stall_count(&self) -> (r: u32)
        ensures
            r == self.stalls(),
    {
        self.stall_cycles
    }

    /// A packet was decoded: the stall count starts over.
    pub fn decoded(&mut self)
        ensures
            final(self).stalls() == 0,
            final(self).last_file_size() == old(self).last_file_size(),
    {
        self.stall_cycles = 0;
    }

    /// The decoder ran out of data: one more stall; the stream is given up
    /// when that makes more than the limit.
    pub fn decoder_starved(&mut self) -> (r: StallAction)
        requires
            old(self).stalls() < u32::MAX,
        ensures
            final(self).stalls() == old(self).stalls() + 1,
            final(self).last_file_size() == old(self).last_file_size(),
            r == if final(self).stalls() > MAX_STALL_CYCLES {
                StallAction::GiveUp
            } else {
                StallAction::Wait
            },
    {
        self.stall_cycles = self.stall_cycles + 1;
        if self.stall_cycles > MAX_STALL_CYCLES {
            StallAction::GiveUp
        } else {
            StallAction::Wait
        }
    }

    /// The reader ran out of data while the file is `current_size` bytes:
    /// if the file grew the stall count starts over; otherwise the stream is
    /// given up once the count is past the limit, or one more stall is counted.
    pub fn reader_starved(&mut self, current_size: u64) -> (r: StallAction)
        ensures
            current_size > old(self).last_file_size() ==> {
                &&& r == StallAction::Wait
                &&& final(self).stalls() == 0
                &&& final(self).last_file_size() == current_size
            },
            current_size <= old(self).last_file_size() ==> {
                &&& final(self).last_file_size() == old(self).last_file_size()
                &&& if old(self).stalls() > MAX_STALL_CYCLES {
                    r == StallAction::GiveUp && final(self).stalls() == old(self).stalls()
                } else {
                    r == StallAction::Wait && final(self).stalls() == old(self).stalls() + 1
                }
            },
    {
        if current_size > self.last_file_size {
            self.last_file_size = current_size;
            self.stall_cycles = 0;
            StallAction::Wait
        } else if self.stall_cycles > MAX_STALL_CYCLES {
            StallAction::GiveUp
        } else {
            self.stall_cycles = self.stall_cycles + 1;
            StallAction::Wait
        }
    }
}

/// The state that a pause request leaves behind.
pub open spec fn state_after_pause_request(state: PlayerStateLabel) -> PlayerStateLabel {
    match pause_command_for(state) {
        PauseCommand::Pause => PlayerStateLabel::Paused,
        PauseCommand::Resume => PlayerStateLabel::Playing,
        PauseCommand::Nothing => state,
    }
}

/// Two pause requests in a row leave the player as it was: playing stays
/// playing, paused stays paused, stopped stays stopped.
pub proof fn pause_request_twice_restores(state: PlayerStateLabel)
    ensures
        state_after_pause_request(state_after_pause_request(state)) == state,
{
}

/// Skipping forward and then back puts the current and next tracks back in
/// their slots; the track that was previous is no longer cached in a slot.
/// Each skip is possible: there is a next track to go to, and then a previous one.
pub proof fn next_then_previous_restores(f: SlotFiles)
    requires
        f.current is Some,
        f.next is Some,
    ensures
        presence_of(f).next,
        presence_of(after_next(f)).prev,
        after_previous(after_next(f)) == (SlotFiles { prev: None, current: f.current, next: f.next }),
{
}

/// Skipping back and then forward puts the previous and current tracks back
/// in their slots; the track that was next is no longer cached in a slot.
pub proof fn previous_then_next_restores(f: SlotFiles)
    requires
        f.current is Some,
        f.prev is Some,
    ensures
        presence_of(f).prev,
        presence_of(after_previous(f)).next,
        after_next(after_previous(f)) == (SlotFiles { prev: f.prev, current: f.current, next: None }),
{
}

/// A skip never loses the track it skips to: skipping forward makes the next
/// track current, skipping back makes the previous track current.
pub proof fn skip_plays_the_cached_track(f: SlotFiles)
    ensures
        after_next(f).current == f.next,
        after_previous(f).current == f.prev,
        f.current is Some ==> after_next(f).prev == f.current && after_previous(f).next
            == f.current,
{
}

/// The first track of a stream whose codec is one of `supported`, if any.
pub open spec fn first_supported(codecs: Seq<u32>, supported: Seq<u32>, i: int) -> Option<usize>
    decreases codecs.len() - i,
{
    if i < 0 || i >= codecs.len() {
        None
    } else if supported.contains(codecs[i]) {
        Some(i as usize)
    } else {
        first_supported(codecs, supported, i + 1)
    }
}

/// The track of a stream to decode: the first whose codec (by its number)
/// is among the supported audio codecs; `None` means the container's default
/// track is taken instead.
pub fn select_stream_track(codecs: &[u32], supported: &[u32]) -> (r: Option<usize>)
    ensures
        r == first_supported(codecs@, supported@, 0),
{
    let mut i: usize = 0;
    while i < codecs.len()
        invariant
            i <= codecs.len(),
            first_supported(codecs@, supported@, 0) == first_supported(codecs@, supported@, i as int),
        decreases codecs.len() - i,
    {
        let mut k: usize = 0;
        let mut hit = false;
        while k < supported.len()
            invariant
                i < codecs.len(),
                k <= supported.len(),
                hit == (exists|j: int| 0 <= j < k && supported@[j] == codecs@[i as int]),
            decreases supported.len() - k,
        {
            if supported[k] == codecs[i] {
                hit = true;
            }
            k = k + 1;
        }
        if hit {
            assert(supported@.contains(codecs@[i as int]));
            return Some(i);
        }
        assert(!supported@.contains(codecs@[i as int]));
        i = i + 1;
    }
    None
}

/// The channel count a stream is decoded with: the one the stream declares,
/// two when it declares none, and never fewer than one.
pub fn stream_channel_count(declared: Option<u16>) -> (r: u16)
    ensures
        r == match declared {
            Some(c) => if c >= 1 {
                c
            } else {
                1
            },
            None => 2,
        },
{
    let c = match declared {
        Some(c) => c,
        None => 2,
    };
    if c >= 1 {
        c
    } else {
        1
    }
}

} // verus!
