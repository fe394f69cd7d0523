//! The one-time challenge by which a client obtains the server's token: the
//! server writes a random challenge where only its owner can read it, and a
//! client that presents it in time receives the token.
use vstd::prelude::*;
use rand::Rng;
use crate::text::{concat_str, string_of, str_trim, trim};

verus! {

#[verifier::external_type_specification]
#[verifier::external_body]
pub struct ExIoError(std::io::Error);

#[verifier::external_type_specification]
#[verifier::external_body]
pub struct ExThreadRng(rand::rngs::ThreadRng);

/// Why a challenge could not be redeemed.
#[derive(Debug)]
pub enum ChallengeError {
    Io(std::io::Error),
    Expired,
    Missing,
    Mismatch,
}

/// The text of an I/O error (its `Display`). Nothing is stated of it: the
/// text comes from the operating system.
#[verifier::external_body]
fn io_error_text(e: &std::io::Error) -> String {
    format!("{}", e)
}

impl ChallengeError {
    /// The text shown for the error.
    pub fn to_string(&self) -> (r: String)
        ensures
            match self {
                ChallengeError::Io(_) => "io error: "@.is_prefix_of(r@),
                ChallengeError::Expired => r@ == "challenge expired"@,
                ChallengeError::Missing => r@ == "challenge missing"@,
                ChallengeError::Mismatch => r@ == "challenge mismatch"@,
            },
    {
        match self {
            ChallengeError::Io(e) => {
                let detail = io_error_text(e);
                let r = concat_str("io error: ", detail.as_str());
                assert("io error: "@ =~= r@.take("io error: "@.len() as int));
                r
            },
            ChallengeError::Expired => "challenge expired".to_owned(),
            ChallengeError::Missing => "challenge missing".to_owned(),
            ChallengeError::Mismatch => "challenge mismatch".to_owned(),
        }
    }
}

impl ChallengeError {
    /// The HTTP status that answers a failed redemption: 401 Unauthorized when
    /// the challenge is missing, expired or wrong; 500 Internal Server Error
    /// when its file could not be read or written.
    pub fn status(&self) -> (r: u16)
        ensures
            r == if self is Io {
                500u16
            } else {
                401u16
            },
    {
        match self {
            ChallengeError::Io(_) => 500,
            _ => 401,
        }
    }
}

/// How long a challenge stays redeemable, in seconds.
pub const CHALLENGE_TTL_SECS: u64 = 600;

/// A challenge whose file was last written `secs` seconds and `nanos`
/// nanoseconds ago has outlived its time to live.
pub open spec fn expired(secs: u64, nanos: u32) -> bool {
    secs > CHALLENGE_TTL_SECS || (secs == CHALLENGE_TTL_SECS && nanos > 0)
}

/// Whether a challenge of the given age has expired.
pub fn challenge_expired(secs: u64, nanos: u32) -> (r: bool)
    ensures
        r == expired(secs, nanos),
{
    secs > CHALLENGE_TTL_SECS || (secs == CHALLENGE_TTL_SECS && nanos > 0)
}

/// Whether `a` and `b` hold the same text. The comparison looks at every byte
/// whatever the bytes are, so its time tells nothing of where they differ.
pub fn constant_time_eq(a: &str, b: &str) -> (r: bool)
    ensures
        r == (a@ == b@),
{
    let a_bytes = a.as_bytes();
    let b_bytes = b.as_bytes();
    proof {
        vstd::utf8::encode_utf8_decode_utf8(a@);
        vstd::utf8::encode_utf8_decode_utf8(b@);
    }
    if a_bytes.len() != b_bytes.len() {
        return false;
    }
    let mut result: u8 = 0;
    let mut i: usize = 0;
    while i < a_bytes.len()
        invariant
            i <= a_bytes.len() == b_bytes.len(),
            (result == 0) == (forall|j: int| 0 <= j < i ==> a_bytes@[j] == b_bytes@[j]),
        decreases a_bytes.len() - i,
    {
        let x = a_bytes[i];
        let y = b_bytes[i];
        let prev = result;
        result = result | (x ^ y);
        assert((prev | (x ^ y)) == 0u8 <==> (prev == 0u8 && x == y)) by (bit_vector);
        i = i + 1;
    }
    assert((result == 0) ==> a_bytes@ =~= b_bytes@);
    result == 0
}

/// The characters that tokens are drawn from: `A`-`Z`, `a`-`z`, `0`-`9`.
pub open spec fn token_char(c: char) -> bool {
    ('A' <= c <= 'Z') || ('a' <= c <= 'z') || ('0' <= c <= '9')
}

/// The `i`-th character of the token alphabet `A..Za..z0..9`.
pub open spec fn alphabet_char(i: int) -> char {
    if i < 26 {
        (65 + i) as char
    } else if i < 52 {
        (97 + (i - 26)) as char
    } else {
        (48 + (i - 52)) as char
    }
}

/// How many characters the token alphabet has.
pub const ALPHABET_LEN: usize = 62;

/// The `i`-th character of the token alphabet.
pub fn alphabet_at(i: usize) -> (c: char)
    requires
        i < ALPHABET_LEN,
    ensures
        c == alphabet_char(i as int),
        token_char(c),
{
    let b: u8 = if i < 26 {
        65 + (i as u8)
    } else if i < 52 {
        97 + ((i - 26) as u8)
    } else {
        48 + ((i - 52) as u8)
    };
    b as char
}

/// `rand::thread_rng()`: the thread's random number generator.
#[verifier::external_body]
fn thread_rng() -> rand::rngs::ThreadRng {
    rand::thread_rng()
}

/// `Rng::gen_range(0..bound)`: a random number below `bound` (the range
/// must not be empty).
#[verifier::external_body]
fn random_below(rng: &mut rand::rngs::ThreadRng, bound: usize) -> (r: usize)
    requires
        bound > 0,
    ensures
        r < bound,
{
    rng.gen_range(0..bound)
}

/// `n` characters drawn at random from the token alphabet.
pub fn random_token_chars(n: usize) -> (r: Vec<char>)
    ensures
        r.len() == n,
        forall|i: int| 0 <= i < n ==> token_char(#[trigger] r@[i]),
{
    let mut rng = thread_rng();
    let mut r: Vec<char> = Vec::new();
    let mut i: usize = 0;
    while i < n
        invariant
            i <= n,
            r.len() == i,
            forall|j: int| 0 <= j < i ==> token_char(#[trigger] r@[j]),
        decreases n - i,
    {
        let k = random_below(&mut rng, ALPHABET_LEN);
        r.push(alphabet_at(k));
        i = i + 1;
    }
    r
}

/// `raw` with a `-` before every fourth character after the first group:
/// `ABCDEFGH` becomes `ABCD-EFGH`.
pub open spec fn dash_grouped(raw: Seq<char>) -> Seq<char>
    decreases raw.len(),
{
    if raw.len() == 0 {
        seq![]
    } else {
        let p = dash_grouped(raw.drop_last());
        let i = raw.len() - 1;
        if i > 0 && i % 4 == 0 {
            p.push('-').push(raw.last())
        } else {
            p.push(raw.last())
        }
    }
}

/// `raw` in groups of four joined by `-`.
pub fn group_with_dashes(raw: &[char]) -> (r: String)
    ensures
        r@ == dash_grouped(raw@),
{
    let mut out: Vec<char> = Vec::new();
    let mut i: usize = 0;
    assert(raw@.take(0) =~= Seq::<char>::empty());
    while i < raw.len()
        invariant
            i <= raw.len(),
            out@ == dash_grouped(raw@.take(i as int)),
        decreases raw.len() - i,
    {
        if i > 0 && i % 4 == 0 {
            out.push('-');
        }
        out.push(raw[i]);
        proof {
            let t = raw@.take(i + 1);
            assert(t.drop_last() =~= raw@.take(i as int));
            assert(t.last() == raw@[i as int]);
        }
        i = i + 1;
    }
    assert(raw@.take(raw.len() as int) =~= raw@);
    string_of(out.as_slice())
}

/// How many raw characters a challenge has.
pub const CHALLENGE_RAW_LEN: usize = 32;

/// A fresh challenge: thirty-two random characters of the token alphabet, in
/// groups of four joined by `-`.
pub fn generate_token() -> (r: String)
    ensures
        exists|raw: Seq<char>|
            raw.len() == CHALLENGE_RAW_LEN && (forall|i: int|
                0 <= i < raw.len() ==> token_char(#[trigger] raw[i])) && r@ == dash_grouped(raw),
{
    let raw = random_token_chars(CHALLENGE_RAW_LEN);
    group_with_dashes(raw.as_slice())
}

/// The outcome of presenting `presented` for a stored challenge file holding
/// `stored`: the trimmed stored challenge when the two match, else `Mismatch`.
pub open spec fn redemption(stored: Seq<char>, presented: Seq<char>) -> Result<
    Seq<char>,
    (),
> {
    if trim(stored) == presented {
        Ok(trim(stored))
    } else {
        Err(())
    }
}

/// Redeems a challenge that is present and unexpired: the stored text,
/// trimmed, must equal what the client presented (compared in constant time);
/// the redeemed challenge is returned.
pub fn redeem(stored: &str, presented: &str) -> (r: Result<String, ChallengeError>)
    ensures
        match r {
            Ok(t) => redemption(stored@, presented@) == Ok::<Seq<char>, ()>(t@),
            Err(e) => redemption(stored@, presented@) is Err && e is Mismatch,
        },
{
    let trimmed = str_trim(stored);
    if !constant_time_eq(trimmed.as_str(), presented) {
        return Err(ChallengeError::Mismatch);
    }
    Ok(trimmed)
}

/// What the server finds when a client redeems: no challenge file, one that
/// has outlived its time to live, or a current one holding the given text.
pub enum ChallengeFile {
    Absent,
    Expired,
    Current(String),
}

/// What becomes of the challenge file after a redemption: it stays; it is
/// deleted; or its challenge becomes the server token (written where the
/// server keeps its token) and the challenge file is deleted.
pub enum ChallengeAction {
    Keep,
    Delete,
    Promote(String),
}

/// The challenge file as the redemption rules see it.
pub enum FileState {
    Absent,
    Expired,
    Current(Seq<char>),
}

/// Why a redemption was refused.
pub enum Refusal {
    Missing,
    Expired,
    Mismatch,
    Io,
}

/// The outcome of a redemption: the redeemed token, or a refusal.
pub enum RedeemOutcome {
    Redeemed(Seq<char>),
    Refused(Refusal),
}

impl ChallengeFile {
    /// The state of the file.
    pub open spec fn state(&self) -> FileState {
        match self {
            ChallengeFile::Absent => FileState::Absent,
            ChallengeFile::Expired => FileState::Expired,
            ChallengeFile::Current(s) => FileState::Current(s@),
        }
    }
}

/// The outcome that a redemption's result reports.
pub open spec fn outcome_of(r: Result<String, ChallengeError>) -> RedeemOutcome {
    match r {
        Ok(t) => RedeemOutcome::Redeemed(t@),
        Err(ChallengeError::Missing) => RedeemOutcome::Refused(Refusal::Missing),
        Err(ChallengeError::Expired) => RedeemOutcome::Refused(Refusal::Expired),
        Err(ChallengeError::Mismatch) => RedeemOutcome::Refused(Refusal::Mismatch),
        Err(ChallengeError::Io(_)) => RedeemOutcome::Refused(Refusal::Io),
    }
}

/// The state of the challenge file once `action` is carried out: only
/// `Keep` leaves it in place.
pub open spec fn state_after(f: FileState, action: ChallengeAction) -> FileState {
    match action {
        ChallengeAction::Keep => f,
        _ => FileState::Absent,
    }
}

/// The redemption rules: without a file the challenge is missing; an expired
/// one is refused and deleted; a current one whose trimmed text is what the
/// client presented is redeemed and consumed; any other is refused and kept.
pub open spec fn redeem_rule(f: FileState, presented: Seq<char>) -> (RedeemOutcome, FileState) {
    match f {
        FileState::Absent => (RedeemOutcome::Refused(Refusal::Missing), FileState::Absent),
        FileState::Expired => (RedeemOutcome::Refused(Refusal::Expired), FileState::Absent),
        FileState::Current(s) => if trim(s) == presented {
            (RedeemOutcome::Redeemed(trim(s)), FileState::Absent)
        } else {
            (RedeemOutcome::Refused(Refusal::Mismatch), f)
        },
    }
}

/// One redemption: the answer to the client and what to do with the file.
pub fn redemption_step(file: ChallengeFile, presented: &str) -> (r: (
    Result<String, ChallengeError>,
    ChallengeAction,
))
    ensures
        redeem_rule(file.state(), presented@).0 == outcome_of(r.0),
        redeem_rule(file.state(), presented@).1 == state_after(file.state(), r.1),
        r.0 is Ok <==> r.1 is Promote,
        r.1 matches ChallengeAction::Promote(t) ==> r.0 matches Ok(u) && t@ == u@,
{
    match file {
        ChallengeFile::Absent => (Err(ChallengeError::Missing), ChallengeAction::Keep),
        ChallengeFile::Expired => (Err(ChallengeError::Expired), ChallengeAction::Delete),
        ChallengeFile::Current(stored) => match redeem(stored.as_str(), presented) {
            Ok(token) => {
                let promoted = token.clone();
                (Ok(token), ChallengeAction::Promote(promoted))
            },
            Err(e) => (Err(e), ChallengeAction::Keep),
        },
    }
}

/// A challenge is redeemed at most once: after a successful redemption, and
/// after an expired challenge is refused, any further redemption finds no
/// challenge. A wrong guess leaves the challenge redeemable.
pub proof fn redemption_is_single_use(f: FileState, first: Seq<char>, second: Seq<char>)
    ensures
        redeem_rule(f, first).0 is Redeemed ==> redeem_rule(redeem_rule(f, first).1, second).0
            == RedeemOutcome::Refused(Refusal::Missing),
        f is Expired ==> redeem_rule(redeem_rule(f, first).1, second).0 == RedeemOutcome::Refused(
            Refusal::Missing,
        ),
        redeem_rule(f, first).0 == RedeemOutcome::Refused(Refusal::Mismatch) ==> redeem_rule(
            f,
            first,
        ).1 == f,
{
}

/// Grouping adds one dash per full group after the first: a non-empty raw
/// token of `n` characters becomes `n + (n - 1) / 4` characters long.
pub proof fn dash_grouped_len(raw: Seq<char>)
    requires
        raw.len() > 0,
    ensures
        dash_grouped(raw).len() == raw.len() + (raw.len() - 1) / 4,
    decreases raw.len(),
{
    let i: int = raw.len() - 1;
    let p = dash_grouped(raw.drop_last());
    assert(dash_grouped(raw).len() == p.len() + if i > 0 && i % 4 == 0 {
        2int
    } else {
        1int
    });
    if raw.len() > 1 {
        dash_grouped_len(raw.drop_last());
        if i % 4 == 0 {
            assert(i / 4 == (i - 1) / 4 + 1) by (nonlinear_arith)
                requires
                    i % 4 == 0,
                    i > 0,
            ;
        } else {
            assert(i / 4 == (i - 1) / 4) by (nonlinear_arith)
                requires
                    i % 4 != 0,
                    i > 0,
            ;
        }
    }
}

/// Removing the dashes from a grouped token gives back the raw characters,
/// when those hold no dash themselves.
pub proof fn dashes_removed_give_raw(raw: Seq<char>)
    requires
        forall|i: int| 0 <= i < raw.len() ==> #[trigger] raw[i] != '-',
    ensures
        dash_grouped(raw).filter(|c: char| c != '-') == raw,
    decreases raw.len(),
{
    reveal(Seq::filter);
    if raw.len() > 0 {
        let d = raw.drop_last();
        assert forall|i: int| 0 <= i < d.len() implies #[trigger] d[i] != '-' by {
            assert(d[i] == raw[i]);
        }
        dashes_removed_give_raw(d);
        let p = dash_grouped(d);
        let x = raw.last();
        assert(x != '-') by {
            assert(raw[raw.len() - 1] != '-');
        }
        let pred = |c: char| c != '-';
        assert(p.push(x).drop_last() =~= p);
        assert(p.push(x).filter(pred) =~= p.filter(pred).push(x));
        let i = raw.len() - 1;
        if i > 0 && i % 4 == 0 {
            let q = p.push('-');
            assert(q.drop_last() =~= p);
            assert(q.filter(pred) =~= p.filter(pred));
            assert(q.push(x).drop_last() =~= q);
            assert(q.push(x).filter(pred) =~= q.filter(pred).push(x));
        }
        assert(d.push(x) =~= raw);
    }
}

/// A challenge is thirty-two characters of the alphabet in eight groups of
/// four: thirty-nine characters, whose dashes removed leave the thirty-two drawn.
pub proof fn challenge_shape(raw: Seq<char>)
    requires
        raw.len() == CHALLENGE_RAW_LEN,
        forall|i: int| 0 <= i < raw.len() ==> token_char(#[trigger] raw[i]),
    ensures
        dash_grouped(raw).len() == 39,
        dash_grouped(raw).filter(|c: char| c != '-') == raw,
{
    dash_grouped_len(raw);
    assert forall|i: int| 0 <= i < raw.len() implies #[trigger] raw[i] != '-' by {
        assert(token_char(raw[i]));
    }
    dashes_removed_give_raw(raw);
}

} // verus!
