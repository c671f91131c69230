use vstd::prelude::*;
use vstd::string::*;
use crate::error::TransferError;
use crate::payload::{resolve_payload, spec_resolve_payload, MAX_DECODE_DEPTH};

verus! {

/// Credentials and target path of a shell destination, as parsed from a
/// `user:pass@host:path` specifier.
#[derive(Debug, Clone)]
pub struct SshConfig {
    pub username: String,
    pub password: String,
    pub ip: String,
    pub remote_path: String,
}

pub open spec fn string_views(s: Seq<String>) -> Seq<Seq<char>> {
    s.map(|i: int, x: String| x@)
}

/// Index of the first occurrence of `c` in `s`, or `s.len()` if there is
/// none.
pub open spec fn first_index_of(s: Seq<char>, c: char) -> nat
    decreases s.len(),
{
    if s.len() == 0 {
        0
    } else if s[0] == c {
        0
    } else {
        1 + first_index_of(s.drop_first(), c)
    }
}

/// The segments of `s` between occurrences of the separator `c`; one more
/// segment than there are separators, so never empty.
pub open spec fn spec_split(s: Seq<char>, c: char) -> Seq<Seq<char>>
    decreases s.len(),
{
    let i = first_index_of(s, c);
    if i >= s.len() {
        seq![s]
    } else {
        seq![s.take(i as int)] + spec_split(s.subrange(i as int + 1, s.len() as int), c)
    }
}

proof fn lemma_first_index_at(s: Seq<char>, c: char, m: int)
    requires
        0 <= m <= s.len(),
        forall|k: int| 0 <= k < m ==> s[k] != c,
        m < s.len() ==> s[m] == c,
    ensures
        m < s.len() ==> first_index_of(s, c) == m,
        m == s.len() ==> first_index_of(s, c) == s.len(),
    decreases m,
{
    if m == 0 {
    } else {
        assert(s[0] != c);
        let d = s.drop_first();
        assert forall|k: int| 0 <= k < m - 1 implies d[k] != c by {
            assert(d[k] == s[k + 1]);
        }
        if m < s.len() {
            assert(d[m - 1] == s[m]);
        }
        lemma_first_index_at(d, c, m - 1);
    }
}

/// Splits `s` at every occurrence of `sep`; see `spec_split`.
pub fn split_char(s: &str, sep: char) -> (r: Vec<String>)
    ensures
        string_views(r@) == spec_split(s@, sep),
{
    let n = s.unicode_len();
    let mut out: Vec<String> = Vec::new();
    let mut start: usize = 0;
    let mut i: usize = 0;
    proof {
        assert(s@.subrange(0, n as int) =~= s@);
    }
    while i < n
        invariant
            start <= i <= n,
            n == s@.len(),
            forall|k: int| start <= k < i ==> s@[k] != sep,
            spec_split(s@, sep) == string_views(out@) + spec_split(
                s@.subrange(start as int, n as int),
                sep,
            ),
        decreases n - i,
    {
        if s.get_char(i) == sep {
            let piece = String::from_str(s.substring_char(start, i));
            let ghost tail = s@.subrange(start as int, n as int);
            let ghost before = out@;
            proof {
                assert forall|k: int| 0 <= k < i - start implies tail[k] != sep by {
                    assert(tail[k] == s@[start + k]);
                }
                assert(tail[i - start] == s@[i as int]);
                lemma_first_index_at(tail, sep, i - start);
                assert(tail.take(i - start) =~= s@.subrange(start as int, i as int));
                assert(tail.subrange(i - start + 1, tail.len() as int) =~= s@.subrange(
                    i + 1,
                    n as int,
                ));
            }
            out.push(piece);
            proof {
                assert(string_views(out@) =~= string_views(before) + seq![
                    s@.subrange(start as int, i as int),
                ]);
            }
            start = i + 1;
        }
        i = i + 1;
    }
    let piece = String::from_str(s.substring_char(start, n));
    let ghost tail = s@.subrange(start as int, n as int);
    let ghost before = out@;
    proof {
        assert forall|k: int| 0 <= k < tail.len() implies tail[k] != sep by {
            assert(tail[k] == s@[start + k]);
        }
        lemma_first_index_at(tail, sep, tail.len() as int);
        assert(piece@ =~= tail);
    }
    out.push(piece);
    proof {
        assert(string_views(out@) =~= string_views(before) + seq![tail]);
        assert(string_views(before) + seq![tail] =~= string_views(before) + spec_split(tail, sep));
    }
    out
}

pub open spec fn contains_char(s: Seq<char>, c: char) -> bool {
    exists|i: int| 0 <= i < s.len() && s[i] == c
}

pub open spec fn spec_escape_char(c: char) -> Seq<char> {
    if c == '"' || c == '\\' {
        seq!['\\', c]
    } else {
        seq![c]
    }
}

pub open spec fn spec_escaped_body(s: Seq<char>) -> Seq<char>
    decreases s.len(),
{
    if s.len() == 0 {
        Seq::empty()
    } else {
        spec_escape_char(s[0]) + spec_escaped_body(s.drop_first())
    }
}

/// A command made safe to stand as one shell word: left alone when it
/// holds neither quote nor backslash, otherwise wrapped in double quotes
/// with every inner quote and backslash escaped.
pub open spec fn spec_escape_command(s: Seq<char>) -> Seq<char> {
    if contains_char(s, '"') || contains_char(s, '\\') {
        seq!['"'] + spec_escaped_body(s) + seq!['"']
    } else {
        s
    }
}

proof fn lemma_escaped_body_append(a: Seq<char>, b: Seq<char>)
    ensures
        spec_escaped_body(a + b) == spec_escaped_body(a) + spec_escaped_body(b),
    decreases a.len(),
{
    if a.len() == 0 {
        assert(a + b =~= b);
        assert(spec_escaped_body(a) + spec_escaped_body(b) =~= spec_escaped_body(b));
    } else {
        lemma_escaped_body_append(a.drop_first(), b);
        assert((a + b).drop_first() =~= a.drop_first() + b);
        assert((a + b)[0] == a[0]);
        assert(spec_escape_char(a[0]) + (spec_escaped_body(a.drop_first()) + spec_escaped_body(b))
            =~= (spec_escape_char(a[0]) + spec_escaped_body(a.drop_first())) + spec_escaped_body(
            b,
        ));
    }
}

proof fn lemma_escaped_body_plain(s: Seq<char>)
    requires
        forall|i: int| 0 <= i < s.len() ==> s[i] != '"' && s[i] != '\\',
    ensures
        spec_escaped_body(s) == s,
    decreases s.len(),
{
    if s.len() > 0 {
        lemma_escaped_body_plain(s.drop_first());
        assert(spec_escape_char(s[0]) + s.drop_first() =~= s);
    }
}

fn contains_special(s: &str) -> (r: bool)
    ensures
        r == (contains_char(s@, '"') || contains_char(s@, '\\')),
{
    let n = s.unicode_len();
    let mut i: usize = 0;
    while i < n
        invariant
            i <= n,
            n == s@.len(),
            forall|k: int| 0 <= k < i ==> s@[k] != '"' && s@[k] != '\\',
        decreases n - i,
    {
        let c = s.get_char(i);
        if c == '"' || c == '\\' {
            return true;
        }
        i = i + 1;
    }
    false
}

/// Escapes one command for the remote shell; see `spec_escape_command`.
pub fn escape_command(cmd: &str) -> (r: String)
    ensures
        r@ == spec_escape_command(cmd@),
{
    if !contains_special(cmd) {
        return String::from_str(cmd);
    }
    let n = cmd.unicode_len();
    let mut out = String::from_str("\"");
    let mut start: usize = 0;
    let mut i: usize = 0;
    proof {
        reveal_strlit("\"");
        assert(out@ =~= seq!['"'] + spec_escaped_body(cmd@.take(0)));
    }
    while i < n
        invariant
            start <= i <= n,
            n == cmd@.len(),
            forall|k: int| start <= k < i ==> cmd@[k] != '"' && cmd@[k] != '\\',
            out@ == seq!['"'] + spec_escaped_body(cmd@.take(start as int)),
        decreases n - i,
    {
        let c = cmd.get_char(i);
        if c == '"' || c == '\\' {
            let ghost chunk = cmd@.subrange(start as int, i as int);
            out.append(cmd.substring_char(start, i));
            if c == '"' {
                out.append("\\\"");
                proof {
                    reveal_strlit("\\\"");
                }
            } else {
                out.append("\\\\");
                proof {
                    reveal_strlit("\\\\");
                }
            }
            proof {
                assert forall|k: int| 0 <= k < chunk.len() implies chunk[k] != '"' && chunk[k]
                    != '\\' by {
                    assert(chunk[k] == cmd@[start + k]);
                }
                lemma_escaped_body_plain(chunk);
                assert(cmd@.take(i as int) =~= cmd@.take(start as int) + chunk);
                lemma_escaped_body_append(cmd@.take(start as int), chunk);
                assert(cmd@.take(i + 1) =~= cmd@.take(i as int) + seq![cmd@[i as int]]);
                lemma_escaped_body_append(cmd@.take(i as int), seq![cmd@[i as int]]);
                assert(seq![cmd@[i as int]].drop_first() =~= Seq::<char>::empty());
                assert(spec_escaped_body(Seq::<char>::empty()) =~= Seq::<char>::empty());
                assert(seq![cmd@[i as int]][0] == cmd@[i as int]);
                assert(spec_escaped_body(seq![cmd@[i as int]]) == spec_escape_char(cmd@[i as int])
                    + spec_escaped_body(Seq::<char>::empty()));
                assert(spec_escaped_body(seq![cmd@[i as int]]) =~= spec_escape_char(
                    cmd@[i as int],
                ));
                assert(out@ =~= seq!['"'] + spec_escaped_body(cmd@.take(i + 1)));
            }
            start = i + 1;
        }
        i = i + 1;
    }
    let ghost chunk = cmd@.subrange(start as int, n as int);
    out.append(cmd.substring_char(start, n));
    out.append("\"");
    proof {
        reveal_strlit("\"");
        assert forall|k: int| 0 <= k < chunk.len() implies chunk[k] != '"' && chunk[k] != '\\' by {
            assert(chunk[k] == cmd@[start + k]);
        }
        lemma_escaped_body_plain(chunk);
        assert(cmd@ =~= cmd@.take(start as int) + chunk);
        lemma_escaped_body_append(cmd@.take(start as int), chunk);
        assert(out@ =~= seq!['"'] + spec_escaped_body(cmd@) + seq!['"']);
    }
    out
}

/// The command line handed to the remote side: the escaped command run
/// inside a login shell.
pub open spec fn spec_wrap_command(s: Seq<char>) -> Seq<char> {
    "bash -c "@ + spec_escape_command(s)
}

/// Wraps one resolved command for execution; see `spec_wrap_command`.
pub fn wrap_command(cmd: &str) -> (r: String)
    ensures
        r@ == spec_wrap_command(cmd@),
{
    let escaped = escape_command(cmd);
    let r = String::from_str("bash -c ").concat(escaped.as_str());
    r
}

/// The command lines that a sequence of raw command strings resolves to:
/// empty strings, and strings whose payload resolves to nothing, are
/// dropped; every other command is unwrapped from its encoding layers,
/// escaped and wrapped for the shell, in input order.
pub open spec fn spec_prepared(cmds: Seq<Seq<char>>) -> Seq<Seq<char>>
    decreases cmds.len(),
{
    if cmds.len() == 0 {
        Seq::empty()
    } else {
        let c = cmds[0];
        let resolved = spec_resolve_payload(c, MAX_DECODE_DEPTH as nat);
        let rest = spec_prepared(cmds.drop_first());
        if c.len() == 0 || resolved.len() == 0 {
            rest
        } else {
            seq![spec_wrap_command(resolved)] + rest
        }
    }
}

proof fn lemma_prepared_snoc(cmds: Seq<Seq<char>>, i: int)
    requires
        0 <= i < cmds.len(),
    ensures
        spec_prepared(cmds.take(i + 1)) == spec_prepared(cmds.take(i)) + ({
            let c = cmds[i];
            let resolved = spec_resolve_payload(c, MAX_DECODE_DEPTH as nat);
            if c.len() == 0 || resolved.len() == 0 {
                Seq::<Seq<char>>::empty()
            } else {
                seq![spec_wrap_command(resolved)]
            }
        }),
    decreases i,
{
    let tail = ({
        let c = cmds[i];
        let resolved = spec_resolve_payload(c, MAX_DECODE_DEPTH as nat);
        if c.len() == 0 || resolved.len() == 0 {
            Seq::<Seq<char>>::empty()
        } else {
            seq![spec_wrap_command(resolved)]
        }
    });
    if i == 0 {
        assert(cmds.take(0) =~= Seq::<Seq<char>>::empty());
        assert(cmds.take(1).drop_first() =~= Seq::<Seq<char>>::empty());
        assert(cmds.take(1)[0] == cmds[0]);
        assert(spec_prepared(cmds.take(1)) =~= spec_prepared(cmds.take(0)) + tail);
    } else {
        let d = cmds.drop_first();
        lemma_prepared_snoc(d, i - 1);
        assert(cmds.take(i + 1).drop_first() =~= d.take(i));
        assert(cmds.take(i).drop_first() =~= d.take(i - 1));
        assert(cmds.take(i + 1)[0] == cmds[0]);
        assert(cmds.take(i)[0] == cmds[0]);
        assert(d[i - 1] == cmds[i]);
        assert(spec_prepared(cmds.take(i + 1)) =~= spec_prepared(cmds.take(i)) + tail);
    }
}

/// Resolves, filters and wraps a whole command sequence; see
/// `spec_prepared`. What comes back is what the session should execute,
/// in order.
pub fn prepare_commands(commands: &Vec<String>) -> (r: Vec<String>)
    ensures
        string_views(r@) == spec_prepared(string_views(commands@)),
{
    let ghost cmds = string_views(commands@);
    let mut out: Vec<String> = Vec::new();
    let mut i: usize = 0;
    proof {
        assert(cmds.take(0) =~= Seq::<Seq<char>>::empty());
    }
    while i < commands.len()
        invariant
            i <= commands@.len(),
            cmds == string_views(commands@),
            cmds.len() == commands@.len(),
            string_views(out@) == spec_prepared(cmds.take(i as int)),
        decreases commands@.len() - i,
    {
        proof {
            assert(cmds[i as int] == commands@[i as int]@);
        }
        if commands[i].unicode_len() > 0 {
            let resolved = resolve_payload(commands[i].as_str());
            if resolved.unicode_len() > 0 {
                let wrapped = wrap_command(resolved.as_str());
                let ghost before = out@;
                out.push(wrapped);
                proof {
                    lemma_prepared_snoc(cmds, i as int);
                    assert(string_views(out@) =~= string_views(before) + seq![
                        spec_wrap_command(
                            spec_resolve_payload(cmds[i as int], MAX_DECODE_DEPTH as nat),
                        ),
                    ]);
                }
            } else {
                proof {
                    lemma_prepared_snoc(cmds, i as int);
                    assert(string_views(out@) + Seq::<Seq<char>>::empty() =~= string_views(out@));
                }
            }
        } else {
            proof {
                lemma_prepared_snoc(cmds, i as int);
                assert(string_views(out@) + Seq::<Seq<char>>::empty() =~= string_views(out@));
            }
        }
        i = i + 1;
    }
    proof {
        assert(cmds.take(cmds.len() as int) =~= cmds);
    }
    out
}

/// What a destination specifier parses to once its encoding layers are
/// unwrapped: `user:pass` before the `@`, `host:path` after it, each side
/// split exactly in two.
pub open spec fn spec_parse_ssh(resolved: Seq<char>) -> Option<(Seq<char>, Seq<char>, Seq<char>, Seq<char>)> {
    let at = spec_split(resolved, '@');
    if at.len() != 2 {
        Option::None
    } else {
        let cred = spec_split(at[0], ':');
        let srv = spec_split(at[1], ':');
        if cred.len() != 2 || srv.len() != 2 {
            Option::None
        } else {
            Option::Some((cred[0], cred[1], srv[0], srv[1]))
        }
    }
}

/// Parses a shell destination `user:pass@host:path`, accepting the whole
/// specifier wrapped in layers of base64. Empty and malformed specifiers
/// are rejected.
pub fn parse_destination_ssh(destination: &str) -> (r: Result<SshConfig, TransferError>)
    ensures
        ({
            let resolved = spec_resolve_payload(destination@, MAX_DECODE_DEPTH as nat);
            &&& (r is Ok) <==> (destination@.len() > 0 && spec_parse_ssh(resolved) is Some)
            &&& r is Ok ==> {
                let f = spec_parse_ssh(resolved)->0;
                &&& r->Ok_0.username@ == f.0
                &&& r->Ok_0.password@ == f.1
                &&& r->Ok_0.ip@ == f.2
                &&& r->Ok_0.remote_path@ == f.3
            }
            &&& r is Err ==> r->Err_0 is ConfigFormatError
            &&& destination@.len() == 0 ==> r->Err_0.spec_message() == "Destination cannot be empty"@
            &&& destination@.len() > 0 && spec_split(resolved, '@').len() != 2
                ==> r->Err_0.spec_message() == "Invalid destination format"@
            &&& destination@.len() > 0 && spec_split(resolved, '@').len() == 2 && spec_split(
                spec_split(resolved, '@')[0],
                ':',
            ).len() != 2 ==> r->Err_0.spec_message() == "Invalid credentials format"@
            &&& destination@.len() > 0 && spec_split(resolved, '@').len() == 2 && spec_split(
                spec_split(resolved, '@')[0],
                ':',
            ).len() == 2 && spec_split(spec_split(resolved, '@')[1], ':').len() != 2
                ==> r->Err_0.spec_message() == "Invalid server info format"@
        }),
{
    if destination.unicode_len() == 0 {
        return Err(TransferError::ConfigFormatError(String::from_str("Destination cannot be empty")));
    }
    let resolved = resolve_payload(destination);
    let parts = split_char(resolved.as_str(), '@');
    if parts.len() != 2 {
        return Err(TransferError::ConfigFormatError(String::from_str("Invalid destination format")));
    }
    let credentials = split_char(parts[0].as_str(), ':');
    if credentials.len() != 2 {
        return Err(TransferError::ConfigFormatError(String::from_str("Invalid credentials format")));
    }
    let server_info = split_char(parts[1].as_str(), ':');
    if server_info.len() != 2 {
        return Err(TransferError::ConfigFormatError(String::from_str("Invalid server info format")));
    }
    let mut credentials = credentials;
    let mut server_info = server_info;
    let password = credentials.pop().unwrap();
    let username = credentials.pop().unwrap();
    let remote_path = server_info.pop().unwrap();
    let ip = server_info.pop().unwrap();
    Ok(SshConfig { username, password, ip, remote_path })
}

} // verus!
