//! The client's command-line grammars.
//!
//! A chat line is either one of the dot-commands (`.file`, `.image`,
//! `.username`, `.quit`, `.color`) or plain text; before login the client
//! speaks the narrower `.login` / `.register` grammar.  Both grammars work
//! on one whole line, split at single spaces, with colour components written
//! as one to three decimal digits valued up to 255.

use vstd::prelude::*;
use vstd::string::StrSliceExecFns;
use vstd::string::StringSliceAdditionalSpecFns;
use crate::model::{MessageType, PayloadView};

verus! {

// ---------------------------------------------------------------------------
// Splitting a line into tokens
// ---------------------------------------------------------------------------

/// The index of the first space at or after `from`, or the line's length.
pub open spec fn first_space(s: Seq<char>, from: int) -> int
    decreases s.len() - from,
{
    if from < 0 || from >= s.len() {
        s.len() as int
    } else if s[from] == ' ' {
        from
    } else {
        first_space(s, from + 1)
    }
}

/// The tokens of the line from `from` on: maximal space-free runs, one
/// (possibly empty) token between every two neighbouring spaces.
pub open spec fn split_from(s: Seq<char>, from: int) -> Seq<Seq<char>>
    decreases s.len() - from,
{
    let j = first_space(s, from);
    if from < 0 || j < from || j >= s.len() {
        seq![s.subrange(from, s.len() as int)]
    } else {
        seq![s.subrange(from, j)] + split_from(s, j + 1)
    }
}

/// The tokens of one whole line.
pub open spec fn split_tokens(s: Seq<char>) -> Seq<Seq<char>> {
    split_from(s, 0)
}

/// The views of a token list.
pub open spec fn token_views(ts: Seq<String>) -> Seq<Seq<char>> {
    ts.map_values(|t: String| t@)
}

proof fn lemma_first_space_at(s: Seq<char>, from: int, at: int)
    requires
        0 <= from <= at <= s.len(),
        forall|k: int| from <= k < at ==> s[k] != ' ',
        at == s.len() || s[at] == ' ',
    ensures
        first_space(s, from) == at,
    decreases at - from,
{
    if from < at {
        lemma_first_space_at(s, from + 1, at);
    }
}

fn next_space(s: &str, from: usize, n: usize) -> (r: usize)
    requires
        n == s@.len(),
        from <= n,
    ensures
        from <= r <= n,
        r == first_space(s@, from as int),
        r < n ==> s@[r as int] == ' ',
        forall|k: int| from <= k < r ==> s@[k] != ' ',
{
    let mut i: usize = from;
    while i < n
        invariant
            from <= i <= n,
            n == s@.len(),
            forall|k: int| from <= k < i ==> s@[k] != ' ',
        decreases n - i,
    {
        if s.get_char(i) == ' ' {
            proof {
                lemma_first_space_at(s@, from as int, i as int);
            }
            return i;
        }
        i = i + 1;
    }
    proof {
        lemma_first_space_at(s@, from as int, n as int);
    }
    n
}

/// Splits one line at its spaces.
fn tokenize(s: &str) -> (r: Vec<String>)
    ensures
        token_views(r@) == split_tokens(s@),
        r@.len() >= 1,
{
    let n = s.unicode_len();
    let mut out: Vec<String> = Vec::new();
    let mut from: usize = 0;
    loop
        invariant
            from <= n,
            n == s@.len(),
            split_tokens(s@) == token_views(out@) + split_from(s@, from as int),
            from > 0 ==> s@[from - 1] == ' ',
        decreases n - from,
    {
        let j = next_space(s, from, n);
        let tok = String::from_str(s.substring_char(from, j));
        let ghost before = out@;
        out.push(tok);
        proof {
            assert(token_views(out@) =~= token_views(before).push(s@.subrange(
                from as int,
                j as int,
            )));
        }
        if j == n {
            proof {
                assert(split_from(s@, from as int) =~= seq![
                    s@.subrange(from as int, s@.len() as int),
                ]);
                assert(token_views(out@) + Seq::<Seq<char>>::empty() =~= token_views(out@));
                assert(split_tokens(s@) =~= token_views(out@));
                assert(out@.len() >= 1);
            }
            return out;
        }
        proof {
            assert(split_from(s@, from as int) =~= seq![s@.subrange(from as int, j as int)]
                + split_from(s@, j as int + 1));
            assert(token_views(before).push(s@.subrange(from as int, j as int)) + split_from(
                s@,
                j as int + 1,
            ) =~= token_views(before) + split_from(s@, from as int));
        }
        from = j + 1;
    }
}

// ---------------------------------------------------------------------------
// Colour components
// ---------------------------------------------------------------------------

/// A decimal digit.
pub open spec fn is_digit(c: char) -> bool {
    48 <= c as u32 <= 57
}

/// The number the digits spell, most significant first.
pub open spec fn digits_value(t: Seq<char>) -> int
    decreases t.len(),
{
    if t.len() == 0 {
        0
    } else {
        digits_value(t.drop_last()) * 10 + (t.last() as u32 - 48)
    }
}

/// A colour component: one to three decimal digits, valued at most 255.
pub open spec fn is_color_token(t: Seq<char>) -> bool {
    &&& 1 <= t.len() <= 3
    &&& forall|i: int| 0 <= i < t.len() ==> is_digit(#[trigger] t[i])
    &&& digits_value(t) <= 255
}

/// Reads a colour component, or nothing where the token is no such thing.
fn parse_color_token(t: &String) -> (r: Option<u8>)
    ensures
        match r {
            Some(v) => is_color_token(t@) && v == digits_value(t@),
            None => !is_color_token(t@),
        },
{
    let s = t.as_str();
    let n = s.unicode_len();
    if n < 1 || n > 3 {
        return None;
    }
    let mut value: u32 = 0;
    let mut i: usize = 0;
    while i < n
        invariant
            i <= n,
            n == s@.len(),
            t@ == s@,
            1 <= n <= 3,
            forall|k: int| 0 <= k < i ==> is_digit(#[trigger] s@[k]),
            value == digits_value(s@.take(i as int)),
            i == 0 ==> value == 0,
            i == 1 ==> value <= 9,
            i == 2 ==> value <= 99,
            i >= 3 ==> value <= 999,
        decreases n - i,
    {
        let c = s.get_char(i);
        let code = c as u32;
        if code < 48 || code > 57 {
            proof {
                assert(t@ == s@);
                assert(!is_digit(s@[i as int]));
                assert((i as int) < t@.len());
                if is_color_token(t@) {
                    assert(forall|k: int| 0 <= k < t@.len() ==> is_digit(#[trigger] t@[k]));
                    assert(is_digit(t@[i as int]));
                }
            }
            return None;
        }
        proof {
            assert(s@.take(i as int + 1).drop_last() =~= s@.take(i as int));
            assert(s@.take(i as int + 1).last() == s@[i as int]);
        }
        value = value * 10 + (code - 48);
        i = i + 1;
    }
    proof {
        assert(s@.take(n as int) =~= s@);
    }
    if value <= 255 {
        Some(value as u8)
    } else {
        None
    }
}

// ---------------------------------------------------------------------------
// Comparing a token against a keyword
// ---------------------------------------------------------------------------

fn str_view_eq(a: &str, b: &str) -> (r: bool)
    ensures
        r == (a@ == b@),
{
    let ab: &[u8] = a.as_bytes();
    let bb: &[u8] = b.as_bytes();
    if ab.len() != bb.len() {
        proof {
            if a@ == b@ {
                assert(a.spec_bytes() == b.spec_bytes());
            }
        }
        return false;
    }
    let mut i: usize = 0;
    while i < ab.len()
        invariant
            i <= ab@.len(),
            ab@ == a.spec_bytes(),
            bb@ == b.spec_bytes(),
            ab@.len() == bb@.len(),
            forall|k: int| 0 <= k < i ==> ab@[k] == bb@[k],
        decreases ab@.len() - i,
    {
        if *vstd::slice::slice_index_get(ab, i) != *vstd::slice::slice_index_get(bb, i) {
            proof {
                if a@ == b@ {
                    assert(a.spec_bytes() == b.spec_bytes());
                }
            }
            return false;
        }
        i = i + 1;
    }
    proof {
        assert(a.spec_bytes() =~= b.spec_bytes());
        vstd::utf8::encode_utf8_decode_utf8(a@);
        vstd::utf8::encode_utf8_decode_utf8(b@);
        assert(a@ == b@);
    }
    true
}

// ---------------------------------------------------------------------------
// The chat-line grammar
// ---------------------------------------------------------------------------

/// One parsed chat line.
#[derive(Debug, PartialEq, Eq)]
pub enum CommandType {
    File(String),
    Image(String),
    Text(String),
    Quit,
    Username(String),
    Color((u8, u8, u8)),
}

/// Why a line fits no command grammar.
#[derive(Debug, PartialEq, Eq)]
pub enum FromStrError {
    RegexCreate,
    RegexParse,
    StringToNumber,
    Internal(String),
}

/// The line opens with this prefix.
pub open spec fn has_prefix(v: Seq<char>, p: Seq<char>) -> bool {
    v.len() >= p.len() && v.take(p.len() as int) == p
}

/// A `.file` command: the keyword, a space, and a non-empty path.
pub open spec fn file_cmd(v: Seq<char>) -> bool {
    has_prefix(v, ".file "@) && v.len() > ".file "@.len()
}

/// An `.image` command.
pub open spec fn image_cmd(v: Seq<char>) -> bool {
    has_prefix(v, ".image "@) && v.len() > ".image "@.len()
}

/// A `.username` command.
pub open spec fn username_cmd(v: Seq<char>) -> bool {
    has_prefix(v, ".username "@) && v.len() > ".username "@.len()
}

/// The `.quit` command: that word alone.
pub open spec fn quit_cmd(v: Seq<char>) -> bool {
    v == ".quit"@
}

/// A `.color` command: the keyword and three colour components.
pub open spec fn color_cmd(v: Seq<char>) -> bool {
    let ts = split_tokens(v);
    &&& ts.len() == 4
    &&& ts[0] == ".color"@
    &&& is_color_token(ts[1])
    &&& is_color_token(ts[2])
    &&& is_color_token(ts[3])
}

impl CommandType {
    /// Parses one chat line.
    ///
    /// The five dot-commands are recognised whole; any other non-empty line
    /// is plain text, and only the empty line fits nothing.
    pub fn from_str(s: &str) -> (r: Result<CommandType, FromStrError>)
        ensures
            ({
                let v = s@;
                match r {
                    Ok(cmd) => match cmd {
                        CommandType::File(name) => file_cmd(v) && name@ == v.skip(
                            ".file "@.len() as int,
                        ),
                        CommandType::Image(name) => image_cmd(v) && name@ == v.skip(
                            ".image "@.len() as int,
                        ),
                        CommandType::Username(name) => username_cmd(v) && name@ == v.skip(
                            ".username "@.len() as int,
                        ),
                        CommandType::Quit => quit_cmd(v),
                        CommandType::Color(c) => color_cmd(v) && c.0 == digits_value(
                            split_tokens(v)[1],
                        ) && c.1 == digits_value(split_tokens(v)[2]) && c.2 == digits_value(
                            split_tokens(v)[3],
                        ),
                        CommandType::Text(t) => t@ == v && v.len() > 0 && !file_cmd(v)
                            && !image_cmd(v) && !username_cmd(v) && !quit_cmd(v) && !color_cmd(v),
                    },
                    Err(e) => e == FromStrError::RegexParse && v.len() == 0,
                }
            }),
    {
        proof {
            reveal_strlit(".file ");
            reveal_strlit(".image ");
            reveal_strlit(".username ");
        }
        let n = s.unicode_len();
        if n == 0 {
            return Err(FromStrError::RegexParse);
        }
        if n > 6 && str_view_eq(s.substring_char(0, 6), ".file ") {
            let name = String::from_str(s.substring_char(6, n));
            proof {
                assert(s@.take(6) =~= s@.subrange(0, 6));
                assert(name@ =~= s@.skip(6));
            }
            return Ok(CommandType::File(name));
        }
        if n > 7 && str_view_eq(s.substring_char(0, 7), ".image ") {
            let name = String::from_str(s.substring_char(7, n));
            proof {
                assert(s@.take(7) =~= s@.subrange(0, 7));
                assert(name@ =~= s@.skip(7));
            }
            return Ok(CommandType::Image(name));
        }
        if n > 10 && str_view_eq(s.substring_char(0, 10), ".username ") {
            let name = String::from_str(s.substring_char(10, n));
            proof {
                assert(s@.take(10) =~= s@.subrange(0, 10));
                assert(name@ =~= s@.skip(10));
            }
            return Ok(CommandType::Username(name));
        }
        proof {
            lemma_no_prefix(s@, ".file "@, 6);
            lemma_no_prefix(s@, ".image "@, 7);
            lemma_no_prefix(s@, ".username "@, 10);
        }
        if str_view_eq(s, ".quit") {
            return Ok(CommandType::Quit);
        }
        let toks = tokenize(s);
        if toks.len() == 4 && str_view_eq(toks[0].as_str(), ".color") {
            let c1 = parse_color_token(&toks[1]);
            let c2 = parse_color_token(&toks[2]);
            let c3 = parse_color_token(&toks[3]);
            match (c1, c2, c3) {
                (Some(cr), Some(cg), Some(cb)) => {
                    return Ok(CommandType::Color((cr, cg, cb)));
                },
                _ => {},
            }
            return Ok(CommandType::Text(String::from_str(s)));
        }
        Ok(CommandType::Text(String::from_str(s)))
    }
}

/// Where the checked prefix differs or the line is too short, the command
/// shape cannot hold.
proof fn lemma_no_prefix(v: Seq<char>, p: Seq<char>, n: int)
    requires
        p.len() == n,
        v.len() <= n || v.take(n) != p,
    ensures
        !(has_prefix(v, p) && v.len() > p.len()),
{
}

// ---------------------------------------------------------------------------
// The login/register grammar
// ---------------------------------------------------------------------------

/// One parsed pre-login line.
#[derive(Debug, PartialEq, Eq)]
pub enum LogRegCommandType {
    Login(String, String),
    Register(String, String, String, u8, u8, u8),
}

/// A `.login` line: the keyword, a user name and a password.
pub open spec fn login_shape(ts: Seq<Seq<char>>) -> bool {
    &&& ts.len() == 3
    &&& ts[0] == ".login"@
    &&& ts[1].len() > 0
    &&& ts[2].len() > 0
}

/// A `.register` line: the keyword, a user name, the password twice, and
/// three colour components.
pub open spec fn register_shape(ts: Seq<Seq<char>>) -> bool {
    &&& ts.len() == 7
    &&& ts[0] == ".register"@
    &&& ts[1].len() > 0
    &&& ts[2].len() > 0
    &&& ts[3].len() > 0
}

/// The three colour components of a `.register` line are in range.
pub open spec fn register_colors_ok(ts: Seq<Seq<char>>) -> bool {
    &&& is_color_token(ts[4])
    &&& is_color_token(ts[5])
    &&& is_color_token(ts[6])
}

impl LogRegCommandType {
    /// Parses one pre-login line.
    ///
    /// A well-shaped `.register` line whose colour components are out of
    /// range is reported as an invalid command; any other line that fits
    /// neither grammar fits nothing.
    pub fn from_str(s: &str) -> (r: Result<LogRegCommandType, FromStrError>)
        ensures
            ({
                let ts = split_tokens(s@);
                match r {
                    Ok(cmd) => match cmd {
                        LogRegCommandType::Login(u, p) => login_shape(ts) && u@ == ts[1] && p@
                            == ts[2],
                        LogRegCommandType::Register(u, p, rp, cr, cg, cb) => register_shape(ts)
                            && register_colors_ok(ts) && u@ == ts[1] && p@ == ts[2] && rp@ == ts[3]
                            && cr == digits_value(ts[4]) && cg == digits_value(ts[5]) && cb
                            == digits_value(ts[6]),
                    },
                    Err(e) => match e {
                        FromStrError::RegexParse => !login_shape(ts) && !register_shape(ts),
                        FromStrError::Internal(msg) => register_shape(ts) && !register_colors_ok(
                            ts,
                        ) && msg@ == "Invalid command."@,
                        _ => false,
                    },
                }
            }),
    {
        let mut toks = tokenize(s);
        if toks.len() == 3 {
            if str_view_eq(toks[0].as_str(), ".login") && !toks[1].as_str().is_empty()
                && !toks[2].as_str().is_empty() {
                let p = toks.remove(2);
                let u = toks.remove(1);
                return Ok(LogRegCommandType::Login(u, p));
            }
            return Err(FromStrError::RegexParse);
        }
        if toks.len() == 7 {
            if str_view_eq(toks[0].as_str(), ".register") && !toks[1].as_str().is_empty()
                && !toks[2].as_str().is_empty() && !toks[3].as_str().is_empty() {
                let c1 = parse_color_token(&toks[4]);
                let c2 = parse_color_token(&toks[5]);
                let c3 = parse_color_token(&toks[6]);
                match (c1, c2, c3) {
                    (Some(cr), Some(cg), Some(cb)) => {
                        let rp = toks.remove(3);
                        let p = toks.remove(2);
                        let u = toks.remove(1);
                        return Ok(LogRegCommandType::Register(u, p, rp, cr, cg, cb));
                    },
                    _ => {
                        return Err(FromStrError::Internal("Invalid command.".to_owned()));
                    },
                }
            }
            return Err(FromStrError::RegexParse);
        }
        Err(FromStrError::RegexParse)
    }
}

// ---------------------------------------------------------------------------
// Turning parsed commands into protocol payloads
// ---------------------------------------------------------------------------

/// What the client must do with one parsed chat line.
#[derive(Debug, PartialEq, Eq)]
pub enum ClientAction {
    /// Send this payload and keep going.
    Send(MessageType),
    /// Send this payload, then close the session.
    SendAndQuit(MessageType),
    /// Read this file, then send its name and bytes as a file payload.
    ReadFile(String),
    /// Read this file, then send its bytes as an image payload.
    ReadImage(String),
}

/// Decides what one parsed chat line asks for.  Only the file and image
/// commands need anything beyond building a payload: reading the named file
/// is left to the caller.
pub fn plan_command(cmd: CommandType) -> (r: ClientAction)
    ensures
        match cmd {
            CommandType::Text(t) => r matches ClientAction::Send(m) && m@ == PayloadView::Text(t@),
            CommandType::File(path) => r matches ClientAction::ReadFile(p) && p@ == path@,
            CommandType::Image(path) => r matches ClientAction::ReadImage(p) && p@ == path@,
            CommandType::Quit => r matches ClientAction::SendAndQuit(m) && m@
                == PayloadView::UserDisconnect,
            CommandType::Username(u) => r matches ClientAction::Send(m) && m@
                == PayloadView::UserNameChange(u@),
            CommandType::Color(c) => r matches ClientAction::Send(m) && m@
                == PayloadView::UserColorChange(c.0, c.1, c.2),
        },
{
    match cmd {
        CommandType::Text(t) => ClientAction::Send(MessageType::Text(t)),
        CommandType::File(path) => ClientAction::ReadFile(path),
        CommandType::Image(path) => ClientAction::ReadImage(path),
        CommandType::Quit => ClientAction::SendAndQuit(MessageType::UserDisconnect()),
        CommandType::Username(u) => ClientAction::Send(MessageType::UserNameChange(u)),
        CommandType::Color(c) => ClientAction::Send(
            MessageType::UserColorChange(c.0, c.1, c.2),
        ),
    }
}

/// Turns one parsed pre-login line into its request payload.  A register
/// command whose two passwords differ yields nothing and must be retyped.
pub fn plan_auth_command(cmd: LogRegCommandType) -> (r: Option<MessageType>)
    ensures
        match cmd {
            LogRegCommandType::Login(u, p) => r matches Some(m) && m@ == PayloadView::LoginRequest(
                u@,
                p@,
            ),
            LogRegCommandType::Register(u, p, rp, cr, cg, cb) => {
                if p@ == rp@ {
                    r matches Some(m) && m@ == PayloadView::RegisterRequest(u@, p@, cr, cg, cb)
                } else {
                    r is None
                }
            },
        },
{
    match cmd {
        LogRegCommandType::Login(u, p) => Some(MessageType::LoginRequest(u, p)),
        LogRegCommandType::Register(u, p, rp, cr, cg, cb) => {
            if p == rp {
                Some(MessageType::RegisterRequest(u, p, cr, cg, cb))
            } else {
                None
            }
        },
    }
}

} // verus!
