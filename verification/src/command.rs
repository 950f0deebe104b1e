//! Command building: shell escaping, path expansion, working-directory
//! resolution and the final invocation strings for host and container
//! execution.  Paths are modelled as character sequences; a leading `/`
//! marks an absolute path.

use vstd::prelude::*;

use crate::strutil::push_char;

verus! {

/// The body of a single-quoted shell word: every single quote becomes the
/// sequence that closes the quotes, escapes one quote, and reopens them.
pub open spec fn escape_body(s: Seq<char>) -> Seq<char>
    decreases s.len(),
{
    if s.len() == 0 {
        Seq::empty()
    } else {
        (if s[0] == '\'' {
            seq!['\'', '\\', '\'', '\'']
        } else {
            seq![s[0]]
        }) + escape_body(s.drop_first())
    }
}

/// A string wrapped in single quotes with embedded quotes escaped.
pub open spec fn escaped_spec(s: Seq<char>) -> Seq<char> {
    seq!['\''] + escape_body(s) + seq!['\'']
}

proof fn lemma_escape_snoc(s: Seq<char>, x: char)
    ensures
        escape_body(s.push(x)) == escape_body(s) + (if x == '\'' {
            seq!['\'', '\\', '\'', '\'']
        } else {
            seq![x]
        }),
    decreases s.len(),
{
    reveal_with_fuel(escape_body, 2);
    if s.len() == 0 {
        assert(s.push(x).drop_first() =~~= Seq::<char>::empty());
        assert(s.push(x)[0] == x);
        assert(escape_body(s.push(x)) =~~= escape_body(s) + (if x == '\'' {
            seq!['\'', '\\', '\'', '\'']
        } else {
            seq![x]
        }));
    } else {
        assert(s.push(x).drop_first() =~~= s.drop_first().push(x));
        lemma_escape_snoc(s.drop_first(), x);
        assert(escape_body(s.push(x)) =~~= escape_body(s) + (if x == '\'' {
            seq!['\'', '\\', '\'', '\'']
        } else {
            seq![x]
        }));
    }
}

/// Wraps a string in single quotes, escaping embedded single quotes, so it
/// stays one literal word under a POSIX shell.
pub fn shell_escape(s: &str) -> (r: String)
    ensures
        r@ == escaped_spec(s@),
{
    let n = s.unicode_len();
    let mut out = String::new();
    push_char(&mut out, '\'');
    proof {
        assert(s@.take(0) =~~= Seq::<char>::empty());
        assert(out@ =~~= seq!['\''] + escape_body(s@.take(0)));
    }
    let mut i: usize = 0;
    while i < n
        invariant
            n == s@.len(),
            i <= n,
            out@ == seq!['\''] + escape_body(s@.take(i as int)),
        decreases n - i,
    {
        let c = s.get_char(i);
        if c == '\'' {
            push_char(&mut out, '\'');
            push_char(&mut out, '\\');
            push_char(&mut out, '\'');
            push_char(&mut out, '\'');
        } else {
            push_char(&mut out, c);
        }
        proof {
            lemma_escape_snoc(s@.take(i as int), s@[i as int]);
            assert(s@.take(i + 1) =~~= s@.take(i as int).push(s@[i as int]));
            assert(out@ =~~= seq!['\''] + escape_body(s@.take(i + 1)));
        }
        i += 1;
    }
    push_char(&mut out, '\'');
    proof {
        assert(s@.take(n as int) =~~= s@);
        assert(out@ =~~= escaped_spec(s@));
    }
    out
}

/// How a POSIX shell reads one word outside quotes: a backslash escapes the
/// next character, a single quote opens a quoted span, anything else stands
/// for itself.  `None` when the word ends after a dangling backslash or
/// inside a quoted span.
pub open spec fn shell_read_plain(w: Seq<char>) -> Option<Seq<char>>
    decreases w.len(),
{
    if w.len() == 0 {
        Some(Seq::empty())
    } else if w[0] == '\\' {
        if w.len() >= 2 {
            match shell_read_plain(w.subrange(2, w.len() as int)) {
                Some(t) => Some(seq![w[1]] + t),
                None => None,
            }
        } else {
            None
        }
    } else if w[0] == '\'' {
        shell_read_quoted(w.drop_first())
    } else {
        match shell_read_plain(w.drop_first()) {
            Some(t) => Some(seq![w[0]] + t),
            None => None,
        }
    }
}

/// How a POSIX shell reads the rest of a word inside single quotes: every
/// character is literal until the closing quote.
pub open spec fn shell_read_quoted(w: Seq<char>) -> Option<Seq<char>>
    decreases w.len(),
{
    if w.len() == 0 {
        None
    } else if w[0] == '\'' {
        shell_read_plain(w.drop_first())
    } else {
        match shell_read_quoted(w.drop_first()) {
            Some(t) => Some(seq![w[0]] + t),
            None => None,
        }
    }
}

proof fn lemma_quoted_round_trip(s: Seq<char>, rest: Seq<char>)
    ensures
        shell_read_quoted(escape_body(s) + seq!['\''] + rest) == match shell_read_plain(rest) {
            Some(t) => Some(s + t),
            None => None::<Seq<char>>,
        },
    decreases s.len(),
{
    let w = escape_body(s) + seq!['\''] + rest;
    if s.len() == 0 {
        assert(escape_body(s) =~~= Seq::<char>::empty());
        assert(w =~~= seq!['\''] + rest);
        assert(w[0] == '\'');
        assert(w.drop_first() =~~= rest);
        match shell_read_plain(rest) {
            Some(t) => {
                assert(s + t =~~= t);
            },
            None => {},
        }
    } else if s[0] == '\'' {
        let s1 = s.drop_first();
        let chunk = seq!['\'', '\\', '\'', '\''];
        assert(escape_body(s) == chunk + escape_body(s1));
        let w0 = escape_body(s1) + seq!['\''] + rest;
        assert(w[0] == '\'');
        let w1 = seq!['\\', '\'', '\''] + w0;
        assert(w.drop_first() =~~= w1);
        assert(w1[0] == '\\' && w1.len() >= 2);
        assert(w1[1] == '\'');
        let w2 = seq!['\''] + w0;
        assert(w1.subrange(2, w1.len() as int) =~~= w2);
        assert(w2[0] == '\'');
        assert(w2.drop_first() =~~= w0);
        lemma_quoted_round_trip(s1, rest);
        match shell_read_plain(rest) {
            Some(t) => {
                assert(shell_read_quoted(w0) == Some(s1 + t));
                assert(shell_read_plain(w2) == Some(s1 + t));
                assert(shell_read_plain(w1) == Some(seq![w1[1]] + (s1 + t)));
                assert(shell_read_quoted(w) == shell_read_plain(w1));
                assert(seq!['\''] + (s1 + t) =~~= s + t);
            },
            None => {
                assert(shell_read_quoted(w0) is None);
                assert(shell_read_plain(w2) is None);
                assert(shell_read_plain(w1) is None);
                assert(shell_read_quoted(w) == shell_read_plain(w1));
            },
        }
    } else {
        let s1 = s.drop_first();
        assert(escape_body(s) == seq![s[0]] + escape_body(s1));
        let w0 = escape_body(s1) + seq!['\''] + rest;
        assert(w =~~= seq![s[0]] + w0);
        assert(w[0] == s[0] && w[0] != '\'');
        assert(w.drop_first() =~~= w0);
        lemma_quoted_round_trip(s1, rest);
        match shell_read_plain(rest) {
            Some(t) => {
                assert(shell_read_quoted(w) == Some(seq![w[0]] + (s1 + t)));
                assert(seq![s[0]] + (s1 + t) =~~= s + t);
            },
            None => {},
        }
    }
}

/// Law: escaping round-trips.  A shell reading the escaped word yields
/// exactly the original string, whatever quotes it contains.
pub proof fn lemma_shell_escape_round_trip(s: Seq<char>)
    ensures
        shell_read_plain(escaped_spec(s)) == Some(s),
{
    let w = escaped_spec(s);
    assert(w[0] == '\'');
    let e = Seq::<char>::empty();
    assert(w.drop_first() =~~= escape_body(s) + seq!['\''] + e);
    lemma_quoted_round_trip(s, e);
    assert(shell_read_plain(e) == Some(e));
    assert(s + e =~~= s);
}

/// Joining a base directory and a path, as paths behave on this platform:
/// an absolute path stands alone; otherwise a separator is inserted unless
/// the base already ends with one.
pub open spec fn join_path_spec(base: Seq<char>, rel: Seq<char>) -> Seq<char> {
    if rel.len() > 0 && rel[0] == '/' {
        rel
    } else if base.len() > 0 && base.last() == '/' {
        base + rel
    } else {
        base + seq!['/'] + rel
    }
}

/// Joins a base directory and a path.
pub fn join_path(base: &str, rel: &str) -> (r: String)
    ensures
        r@ == join_path_spec(base@, rel@),
{
    let nr = rel.unicode_len();
    if nr > 0 && rel.get_char(0) == '/' {
        return rel.to_owned();
    }
    let nb = base.unicode_len();
    let mut out = base.to_owned();
    if !(nb > 0 && base.get_char(nb - 1) == '/') {
        push_char(&mut out, '/');
    }
    out.append(rel);
    proof {
        if nb > 0 && base@.last() == '/' {
            assert(out@ =~~= join_path_spec(base@, rel@));
        } else {
            assert(out@ =~~= base@ + seq!['/'] + rel@);
        }
    }
    out
}

/// Tilde expansion followed by resolution against the executable's
/// directory: a leading `~` becomes the home directory (kept verbatim when
/// none is known), absolute paths pass through, relative paths resolve
/// against `script_dir`.
pub open spec fn expand_path_spec(
    path: Seq<char>,
    script_dir: Seq<char>,
    home: Option<Seq<char>>,
) -> Seq<char> {
    let expanded = if path.len() > 0 && path[0] == '~' {
        match home {
            Some(h) => h + path.drop_first(),
            None => path,
        }
    } else {
        path
    };
    if expanded.len() > 0 && expanded[0] == '/' {
        expanded
    } else {
        join_path_spec(script_dir, expanded)
    }
}

/// Expands a configured path against the home and script directories.
pub fn expand_path(path: &str, script_dir: &str, home: Option<&String>) -> (r: String)
    ensures
        r@ == expand_path_spec(path@, script_dir@, home.deep_view()),
{
    let n = path.unicode_len();
    let expanded: String = if n > 0 && path.get_char(0) == '~' {
        match home {
            Some(h) => {
                let mut e = h.clone();
                e.append(path.substring_char(1, n));
                proof {
                    assert(e@ =~~= h@ + path@.drop_first());
                }
                e
            },
            None => path.to_owned(),
        }
    } else {
        path.to_owned()
    };
    let ne = expanded.as_str().unicode_len();
    if ne > 0 && expanded.as_str().get_char(0) == '/' {
        expanded
    } else {
        join_path(script_dir, expanded.as_str())
    }
}

/// The working directory handed to the spawn call: in container mode the
/// configured directory is only expanded, never defaulted; on the host a
/// missing configuration falls back to the executable's directory.
pub open spec fn resolve_working_dir_spec(
    wd: Option<Seq<char>>,
    is_container: bool,
    script_dir: Seq<char>,
    home: Option<Seq<char>>,
) -> Option<Seq<char>> {
    match wd {
        Some(w) => Some(expand_path_spec(w, script_dir, home)),
        None => if is_container {
            None
        } else {
            Some(script_dir)
        },
    }
}

/// Resolves the working directory for one execution.
pub fn resolve_working_dir(
    working_dir: Option<&String>,
    is_container: bool,
    script_dir: &str,
    home: Option<&String>,
) -> (r: Option<String>)
    ensures
        r.deep_view() == resolve_working_dir_spec(
            working_dir.deep_view(),
            is_container,
            script_dir@,
            home.deep_view(),
        ),
{
    match working_dir {
        Some(w) => Some(expand_path(w.as_str(), script_dir, home)),
        None => if is_container {
            None
        } else {
            Some(script_dir.to_owned())
        },
    }
}

/// A target's launch can fail before any subprocess is spawned.
#[derive(Debug, Clone, Copy, PartialEq, Eq, Structural)]
pub enum ExecError {
    /// Host execution: the resolved working directory does not exist.
    WorkingDirectoryNotFound,
    /// The log file for a log-only execution could not be created.
    LogFileCreateError,
}

/// Decides whether a log-only launch may proceed, given whether the log
/// file could be created: a target whose log file cannot be created fails
/// before any subprocess is spawned.
pub fn validate_log_file(created: bool) -> (r: Result<(), ExecError>)
    ensures
        r == if created {
            Ok::<(), ExecError>(())
        } else {
            Err::<(), ExecError>(ExecError::LogFileCreateError)
        },
{
    if created {
        Ok(())
    } else {
        Err(ExecError::LogFileCreateError)
    }
}

/// Decides whether a launch may proceed, given whether the host filesystem
/// reports the resolved working directory as existing.  Container mode
/// never validates the directory against the host: it is interpreted
/// inside the container.
pub fn validate_working_dir(is_container: bool, wd_exists: bool) -> (r: Result<(), ExecError>)
    ensures
        r == if is_container || wd_exists {
            Ok::<(), ExecError>(())
        } else {
            Err::<(), ExecError>(ExecError::WorkingDirectoryNotFound)
        },
{
    if is_container || wd_exists {
        Ok(())
    } else {
        Err(ExecError::WorkingDirectoryNotFound)
    }
}

/// The displayed invocation string: on the host, `bash -c` with the whole
/// command quoted; in a container, the container invocation wrapping a
/// login shell that first changes directory when one is configured.
pub open spec fn build_full_command_spec(
    command: Seq<char>,
    wd: Option<Seq<char>>,
    container: Option<Seq<char>>,
) -> Seq<char> {
    match container {
        Some(cc) => match wd {
            Some(w) => cc + " bash -lc \"cd "@ + escaped_spec(w) + " && "@ + command + "\""@,
            None => cc + " bash -lc \""@ + command + "\""@,
        },
        None => "bash -c "@ + escaped_spec(command),
    }
}

/// Builds the full invocation string for one execution.
pub fn build_full_command(
    command: &str,
    working_dir: Option<&str>,
    container_command: Option<&str>,
) -> (r: String)
    ensures
        r@ == build_full_command_spec(
            command@,
            working_dir.deep_view(),
            container_command.deep_view(),
        ),
{
    match container_command {
        Some(cc) => {
            let mut out = cc.to_owned();
            match working_dir {
                Some(w) => {
                    out.append(" bash -lc \"cd ");
                    let esc = shell_escape(w);
                    out.append(esc.as_str());
                    out.append(" && ");
                    out.append(command);
                    out.append("\"");
                    proof {
                        assert(out@ =~~= build_full_command_spec(
                            command@,
                            working_dir.deep_view(),
                            container_command.deep_view(),
                        ));
                    }
                    out
                },
                None => {
                    out.append(" bash -lc \"");
                    out.append(command);
                    out.append("\"");
                    proof {
                        assert(out@ =~~= build_full_command_spec(
                            command@,
                            working_dir.deep_view(),
                            container_command.deep_view(),
                        ));
                    }
                    out
                },
            }
        },
        None => {
            let mut out = String::new();
            out.append("bash -c ");
            let esc = shell_escape(command);
            out.append(esc.as_str());
            proof {
                assert(out@ =~~= build_full_command_spec(
                    command@,
                    working_dir.deep_view(),
                    container_command.deep_view(),
                ));
            }
            out
        },
    }
}

/// The command run by the login shell inside a container: a quoted
/// directory change prefixed when a working directory is configured.
pub open spec fn container_inner_spec(command: Seq<char>, wd: Option<Seq<char>>) -> Seq<char> {
    match wd {
        Some(w) => "cd "@ + escaped_spec(w) + " && "@ + command,
        None => command,
    }
}

/// Builds the command handed to `bash -lc` inside the container.
pub fn build_container_inner(command: &str, working_dir: Option<&str>) -> (r: String)
    ensures
        r@ == container_inner_spec(command@, working_dir.deep_view()),
{
    match working_dir {
        Some(w) => {
            let mut out = String::new();
            out.append("cd ");
            let esc = shell_escape(w);
            out.append(esc.as_str());
            out.append(" && ");
            out.append(command);
            proof {
                assert(out@ =~~= container_inner_spec(command@, working_dir.deep_view()));
            }
            out
        },
        None => command.to_owned(),
    }
}

/// The host command that both shows output live and records it: standard
/// error folded into standard output, piped through `tee` into the quoted
/// log file.
pub open spec fn tee_command_spec(command: Seq<char>, log_file: Seq<char>) -> Seq<char> {
    command + " 2>&1 | tee "@ + escaped_spec(log_file)
}

/// Builds the `tee` invocation for a terminal-visible host execution.
pub fn build_tee_command(command: &str, log_file: &str) -> (r: String)
    ensures
        r@ == tee_command_spec(command@, log_file@),
{
    let mut out = command.to_owned();
    out.append(" 2>&1 | tee ");
    let esc = shell_escape(log_file);
    out.append(esc.as_str());
    proof {
        assert(out@ =~~= tee_command_spec(command@, log_file@));
    }
    out
}

} // verus!
