//! The server's start-up decisions: the command line, the transport, the
//! server token, the default configuration file and the stale socket.
use vstd::prelude::*;
use crate::security::opt_view;
use crate::auth_challenge::{dash_grouped, group_with_dashes, random_token_chars, token_char};
use crate::text::{
    chars_of, occurs_at_exec, starts_with_seq, str_eq, str_trim, string_of, texts, trim, trim_end,
    trim_start,
};

verus! {

/// The disk pool's capacity when the configuration names none: 256 MiB.
pub const DEFAULT_MAX_POOL: u64 = 268435456;

/// The first argument of the form `--transport=<value>` gives the transport.
pub open spec fn transport_arg(args: Seq<Seq<char>>) -> Option<Seq<char>>
    decreases args.len(),
{
    if args.len() == 0 {
        None
    } else if starts_with_seq(args[0], "--transport="@) {
        Some(args[0].skip(12))
    } else {
        transport_arg(args.drop_first())
    }
}

/// The transport named on the command line, if any.
pub fn transport_from_args(args: &[String]) -> (r: Option<String>)
    ensures
        match r {
            Some(t) => transport_arg(texts(args@)) == Some(t@),
            None => transport_arg(texts(args@)) is None,
        },
{
    let prefix = chars_of("--transport=");
    proof {
        reveal_strlit("--transport=");
    }
    let ghost all = texts(args@);
    let mut i: usize = 0;
    assert(all.skip(0) =~= all);
    while i < args.len()
        invariant
            i <= args.len(),
            all == texts(args@),
            prefix@ == "--transport="@,
            prefix@.len() == 12,
            transport_arg(all) == transport_arg(all.skip(i as int)),
        decreases args.len() - i,
    {
        let a = chars_of(args[i].as_str());
        assert(all.skip(i as int)[0] == args@[i as int]@);
        assert(all.skip(i as int).drop_first() =~= all.skip(i + 1));
        if occurs_at_exec(a.as_slice(), prefix.as_slice(), 0) {
            let mut rest: Vec<char> = Vec::new();
            let mut k: usize = 12;
            while k < a.len()
                invariant
                    12 <= k <= a.len(),
                    rest@ == a@.subrange(12, k as int),
                decreases a.len() - k,
            {
                rest.push(a[k]);
                assert(a@.subrange(12, k as int).push(a@[k as int]) =~= a@.subrange(12, k + 1));
                k = k + 1;
            }
            assert(a@.skip(12) =~= a@.subrange(12, a.len() as int));
            return Some(string_of(rest.as_slice()));
        }
        i = i + 1;
    }
    None
}

/// Whether any argument equals `flag`.
pub fn has_flag(args: &[String], flag: &str) -> (r: bool)
    ensures
        r == exists|i: int| 0 <= i < args.len() && #[trigger] args@[i]@ == flag@,
{
    let mut i: usize = 0;
    while i < args.len()
        invariant
            i <= args.len(),
            forall|j: int| 0 <= j < i ==> #[trigger] args@[j]@ != flag@,
        decreases args.len() - i,
    {
        if str_eq(args[i].as_str(), flag) {
            return true;
        }
        i = i + 1;
    }
    false
}

/// The transport in effect: the command line's, else the configuration's,
/// else `auto`.
pub fn effective_transport(cli: Option<String>, configured: Option<String>) -> (r: String)
    ensures
        r@ == match cli {
            Some(t) => t@,
            None => match configured {
                Some(t) => t@,
                None => "auto"@,
            },
        },
{
    match cli {
        Some(t) => t,
        None => match configured {
            Some(t) => t,
            None => "auto".to_owned(),
        },
    }
}

/// Whether the server listens on a Unix socket: `socket` says yes, `http`
/// says no, and anything else (`auto` among them) means yes exactly on Unix.
pub open spec fn socket_transport(transport: Seq<char>, unix: bool) -> bool {
    if transport == "socket"@ {
        true
    } else if transport == "http"@ {
        false
    } else {
        unix
    }
}

/// Whether the transport means a Unix socket on this platform.
pub fn uses_socket(transport: &str, unix: bool) -> (r: bool)
    ensures
        r == socket_transport(transport@, unix),
{
    if str_eq(transport, "socket") {
        true
    } else if str_eq(transport, "http") {
        false
    } else {
        unix
    }
}

/// A configured token is used when it is non-empty.
pub fn configured_token(token: Option<&str>) -> (r: Option<String>)
    ensures
        match token {
            Some(t) => if t@.len() > 0 {
                r matches Some(s) && s@ == t@
            } else {
                r is None
            },
            None => r is None,
        },
{
    match token {
        Some(t) => if t.is_empty() {
            None
        } else {
            Some(t.to_owned())
        },
        None => None,
    }
}

/// A persisted token file holds a usable token when its trimmed text is
/// non-empty; that text is the token.
pub fn persisted_token(contents: &str) -> (r: Option<String>)
    ensures
        match r {
            Some(t) => t@ == trim(contents@) && t@.len() > 0,
            None => trim(contents@).len() == 0,
        },
{
    let t = str_trim(contents);
    if t.as_str().is_empty() {
        None
    } else {
        Some(t)
    }
}

/// On a configuration reload, the token is rotated to the reloaded one when
/// that is non-empty and differs from the token in use.
pub fn token_after_reload(current: &str, reloaded: Option<&str>) -> (r: Option<String>)
    ensures
        match reloaded {
            Some(t) => if t@.len() > 0 && t@ != current@ {
                r matches Some(s) && s@ == t@
            } else {
                r is None
            },
            None => r is None,
        },
{
    match reloaded {
        Some(t) => if !t.is_empty() && !str_eq(t, current) {
            Some(t.to_owned())
        } else {
            None
        },
        None => None,
    }
}

/// How many characters a generated server token has.
pub const SERVER_TOKEN_LEN: usize = 32;

/// A fresh server token: thirty-two random characters of the token alphabet,
/// in groups of four joined by `-`.
pub fn generate_server_token() -> (r: String)
    ensures
        exists|raw: Seq<char>|
            raw.len() == SERVER_TOKEN_LEN && (forall|i: int|
                0 <= i < raw.len() ==> token_char(#[trigger] raw[i])) && r@ == dash_grouped(raw),
{
    let raw = random_token_chars(SERVER_TOKEN_LEN);
    group_with_dashes(raw.as_slice())
}

/// The first character of a grouped token is the first one drawn.
proof fn lemma_dash_grouped_first(raw: Seq<char>)
    requires
        raw.len() > 0,
    ensures
        dash_grouped(raw).len() > 0,
        dash_grouped(raw)[0] == raw[0],
    decreases raw.len(),
{
    if raw.len() > 1 {
        let d = raw.drop_last();
        lemma_dash_grouped_first(d);
        assert(d[0] == raw[0]);
        let p = dash_grouped(d);
        assert(p.push('-').push(raw.last())[0] == p[0]);
        assert(p.push(raw.last())[0] == p[0]);
    } else {
        assert(raw.drop_last().len() == 0);
        assert(dash_grouped(raw.drop_last()).len() == 0);
        assert(dash_grouped(raw) == dash_grouped(raw.drop_last()).push(raw.last()));
        assert(raw.last() == raw[0]);
    }
}

/// A generated token reads back unchanged from the file it is persisted to:
/// it is not empty and has no white space at either end, so
/// `persisted_token` of the written text gives the token itself.
pub proof fn generated_token_reads_back(raw: Seq<char>)
    requires
        raw.len() == SERVER_TOKEN_LEN,
        forall|i: int| 0 <= i < raw.len() ==> token_char(#[trigger] raw[i]),
    ensures
        trim(dash_grouped(raw)) == dash_grouped(raw),
        dash_grouped(raw).len() > 0,
{
    let t = dash_grouped(raw);
    lemma_dash_grouped_first(raw);
    assert(token_char(raw[0]));
    assert(token_char(raw[raw.len() - 1]));
    assert(t.last() == raw.last());
    assert(trim_start(t) == t);
    assert(trim_end(t) == t);
}

/// Where a default configuration file is to be written, if anywhere.
#[derive(Debug, Clone, Copy, PartialEq, Eq, Structural)]
pub enum ConfigTarget {
    /// `/etc/l337-audio-server/server.ini`.
    SystemDir,
    /// `server.ini` in the user's configuration directory.
    UserDir,
    /// `server.ini` in the working directory.
    WorkingDir,
}

/// A default configuration file is written only when none exists: to the
/// system directory when that exists without the file, else to the user's
/// configuration directory when there is one without the file, else to the
/// working directory when there is no user configuration directory and no
/// file there; nothing is written when the system or the user file exists.
pub open spec fn config_target_for(
    system_file: bool,
    system_dir: bool,
    user_file: Option<bool>,
    working_file: bool,
) -> Option<ConfigTarget> {
    if system_file {
        None
    } else if system_dir {
        Some(ConfigTarget::SystemDir)
    } else if user_file == Some(false) {
        Some(ConfigTarget::UserDir)
    } else if user_file == Some(true) || working_file {
        None
    } else {
        Some(ConfigTarget::WorkingDir)
    }
}

/// Where to write the default configuration, given which files and
/// directories exist (`user_file` is `None` when there is no user
/// configuration directory, else whether its file exists).
pub fn config_target(system_file: bool, system_dir: bool, user_file: Option<bool>, working_file: bool) -> (r:
    Option<ConfigTarget>)
    ensures
        r == config_target_for(system_file, system_dir, user_file, working_file),
{
    if system_file {
        return None;
    }
    if system_dir {
        return Some(ConfigTarget::SystemDir);
    }
    if let Some(exists) = user_file {
        if !exists {
            return Some(ConfigTarget::UserDir);
        }
        return None;
    }
    if working_file {
        return None;
    }
    Some(ConfigTarget::WorkingDir)
}

/// Where the track cache lives.
#[derive(Debug, Clone, Copy, PartialEq, Eq, Structural)]
pub enum CacheRoot {
    /// The directory that the configuration names.
    Configured,
    /// The service's cache directory (`CACHE_DIRECTORY`).
    CacheDirectory,
    /// A directory under the service's state directory (`STATE_DIRECTORY`).
    StateDirectory,
    /// `l337/l337-audio-server/cache` under the user's cache directory.
    UserCache,
}

/// A configured cache directory wins; else a non-empty `CACHE_DIRECTORY`,
/// then a non-empty `STATE_DIRECTORY`; else the user's cache directory.
pub open spec fn cache_root_for(
    configured: bool,
    cache_env: Option<Seq<char>>,
    state_env: Option<Seq<char>>,
) -> CacheRoot {
    if configured {
        CacheRoot::Configured
    } else if cache_env matches Some(c) && c.len() > 0 {
        CacheRoot::CacheDirectory
    } else if state_env matches Some(st) && st.len() > 0 {
        CacheRoot::StateDirectory
    } else {
        CacheRoot::UserCache
    }
}

/// Where the cache lives, given whether the configuration names a directory
/// and the values of `CACHE_DIRECTORY` and `STATE_DIRECTORY`, if set.
pub fn cache_root(configured: bool, cache_env: Option<&str>, state_env: Option<&str>) -> (r:
    CacheRoot)
    ensures
        r == cache_root_for(configured, opt_view(cache_env), opt_view(state_env)),
{
    if configured {
        return CacheRoot::Configured;
    }
    if let Some(c) = cache_env {
        if !c.is_empty() {
            return CacheRoot::CacheDirectory;
        }
    }
    if let Some(st) = state_env {
        if !st.is_empty() {
            return CacheRoot::StateDirectory;
        }
    }
    CacheRoot::UserCache
}

/// A socket file may be replaced unless it exists and a server answers on it.
pub fn stale_socket_removable(exists: bool, active: bool) -> (r: bool)
    ensures
        r == !(exists && active),
{
    !(exists && active)
}

/// Whether the socket path is free for a new server: the old file could be
/// replaced (`removable`) and, after the attempt to remove it, no file is
/// left at the path (`exists_after`). A stale file that could not be removed
/// leaves the path taken.
pub fn stale_socket_cleared(removable: bool, exists_after: bool) -> (r: bool)
    ensures
        r == (removable && !exists_after),
{
    removable && !exists_after
}

} // verus!
