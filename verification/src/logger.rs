//! Log-file locations and status lines.  Every log-only execution writes to
//! one file named `<timestamp>_<app>_<action>.log` inside a directory chosen
//! per application, falling back to the global log directory and then to a
//! `logs` directory beside the executable; when even that directory cannot
//! be created, the file lands directly beside the executable.

use vstd::prelude::*;

use crate::command::{expand_path, expand_path_spec, join_path, join_path_spec};
use crate::strutil::push_char;

verus! {

/// Log-path construction and status-line formatting.
pub struct Logger;

/// The phase a status line reports.
#[derive(Debug, Clone, Copy, PartialEq, Eq, Structural)]
pub enum ExecutionStatus {
    Start,
    Success,
    Error,
}

/// The file name `<timestamp>_<app>_<action>.log`.
pub open spec fn log_file_name_spec(
    timestamp: Seq<char>,
    app: Seq<char>,
    action: Seq<char>,
) -> Seq<char> {
    timestamp + seq!['_'] + app + seq!['_'] + action + ".log"@
}

/// The directory an execution logs into: the application's own log
/// directory, else the global one, else `logs` beside the executable.
pub open spec fn log_dir_for_spec(
    app_log_dir: Option<Seq<char>>,
    global_log_dir: Option<Seq<char>>,
    script_dir: Seq<char>,
    home: Option<Seq<char>>,
) -> Seq<char> {
    match app_log_dir {
        Some(d) => expand_path_spec(d, script_dir, home),
        None => match global_log_dir {
            Some(d) => expand_path_spec(d, script_dir, home),
            None => join_path_spec(script_dir, "logs"@),
        },
    }
}

/// The full log path: inside the chosen directory when it could be
/// created, else beside the executable.
pub open spec fn log_path_spec(
    dir_ok: bool,
    log_dir: Seq<char>,
    script_dir: Seq<char>,
    name: Seq<char>,
) -> Seq<char> {
    if dir_ok {
        join_path_spec(log_dir, name)
    } else {
        join_path_spec(script_dir, name)
    }
}

impl Logger {
    /// The directory this execution should log into; the caller creates it
    /// and reports whether that succeeded.
    pub fn log_dir_for(
        app_log_dir: Option<&String>,
        global_log_dir: Option<&String>,
        script_dir: &str,
        home: Option<&String>,
    ) -> (r: String)
        ensures
            r@ == log_dir_for_spec(
                app_log_dir.deep_view(),
                global_log_dir.deep_view(),
                script_dir@,
                home.deep_view(),
            ),
    {
        match app_log_dir {
            Some(d) => expand_path(d.as_str(), script_dir, home),
            None => match global_log_dir {
                Some(d) => expand_path(d.as_str(), script_dir, home),
                None => join_path(script_dir, "logs"),
            },
        }
    }

    /// The file name `<timestamp>_<app>_<action>.log`.
    pub fn log_file_name(timestamp: &str, app: &str, action: &str) -> (r: String)
        ensures
            r@ == log_file_name_spec(timestamp@, app@, action@),
    {
        let mut out = timestamp.to_owned();
        push_char(&mut out, '_');
        out.append(app);
        push_char(&mut out, '_');
        out.append(action);
        out.append(".log");
        proof {
            assert(out@ =~~= log_file_name_spec(timestamp@, app@, action@));
        }
        out
    }

    /// The full log path of one execution, honouring the directory
    /// fallback: when the chosen directory could not be created the file
    /// goes beside the executable instead.
    pub fn generate_log_path(
        app: &str,
        action: &str,
        global_log_dir: Option<&String>,
        app_log_dir: Option<&String>,
        script_dir: &str,
        home: Option<&String>,
        timestamp: &str,
        dir_ok: bool,
    ) -> (r: String)
        ensures
            r@ == log_path_spec(
                dir_ok,
                log_dir_for_spec(
                    app_log_dir.deep_view(),
                    global_log_dir.deep_view(),
                    script_dir@,
                    home.deep_view(),
                ),
                script_dir@,
                log_file_name_spec(timestamp@, app@, action@),
            ),
    {
        let name = Logger::log_file_name(timestamp, app, action);
        if dir_ok {
            let dir = Logger::log_dir_for(app_log_dir, global_log_dir, script_dir, home);
            join_path(dir.as_str(), name.as_str())
        } else {
            join_path(script_dir, name.as_str())
        }
    }

    /// The status line printed when a target starts or finishes, with the
    /// built command shown dimmed at start.
    pub fn status_line(app: &str, action: &str, status: ExecutionStatus, command: Option<&str>) -> (r:
        String)
        ensures
            r@ == status_line_spec(app@, action@, status, command.deep_view()),
    {
        let mut out = String::new();
        match status {
            ExecutionStatus::Start => {
                match command {
                    Some(cmd) => {
                        out.append("\x1b[36m\u{1f680} Starting: ");
                        out.append(app);
                        out.append(" - ");
                        out.append(action);
                        out.append(": \x1b[2m");
                        out.append(cmd);
                        out.append("\x1b[0m\x1b[36m");
                    },
                    None => {
                        out.append("\x1b[36m\u{1f680} Starting: ");
                        out.append(app);
                        out.append(" - ");
                        out.append(action);
                        out.append("\x1b[0m");
                    },
                }
            },
            ExecutionStatus::Success => {
                out.append("\x1b[32m\u{2705} Completed: ");
                out.append(app);
                out.append(" - ");
                out.append(action);
                out.append("\x1b[0m");
            },
            ExecutionStatus::Error => {
                out.append("\x1b[31m\u{274c} Failed: ");
                out.append(app);
                out.append(" - ");
                out.append(action);
                out.append("\x1b[0m");
            },
        }
        proof {
            assert(out@ =~~= status_line_spec(app@, action@, status, command.deep_view()));
        }
        out
    }
}

/// The status line's exact text.
pub open spec fn status_line_spec(
    app: Seq<char>,
    action: Seq<char>,
    status: ExecutionStatus,
    command: Option<Seq<char>>,
) -> Seq<char> {
    match status {
        ExecutionStatus::Start => match command {
            Some(cmd) => "\x1b[36m\u{1f680} Starting: "@ + app + " - "@ + action + ": \x1b[2m"@
                + cmd + "\x1b[0m\x1b[36m"@,
            None => "\x1b[36m\u{1f680} Starting: "@ + app + " - "@ + action + "\x1b[0m"@,
        },
        ExecutionStatus::Success => "\x1b[32m\u{2705} Completed: "@ + app + " - "@ + action
            + "\x1b[0m"@,
        ExecutionStatus::Error => "\x1b[31m\u{274c} Failed: "@ + app + " - "@ + action
            + "\x1b[0m"@,
    }
}

proof fn lemma_concat_cancel(a: Seq<char>, x: Seq<char>, y: Seq<char>)
    requires
        a + x == a + y,
    ensures
        x == y,
{
    assert((a + x).len() == a.len() + x.len());
    assert((a + y).len() == a.len() + y.len());
    assert(x.len() == y.len());
    assert forall|k: int| 0 <= k < x.len() implies x[k] == y[k] by {
        assert((a + x)[a.len() + k] == x[k]);
        assert((a + y)[a.len() + k] == y[k]);
    }
    assert(x =~~= y);
}

proof fn lemma_name_timestamp_inj(
    ts1: Seq<char>,
    ts2: Seq<char>,
    app: Seq<char>,
    action: Seq<char>,
)
    requires
        ts1.len() == ts2.len(),
        log_file_name_spec(ts1, app, action) == log_file_name_spec(ts2, app, action),
    ensures
        ts1 == ts2,
{
    let n1 = log_file_name_spec(ts1, app, action);
    let n2 = log_file_name_spec(ts2, app, action);
    assert forall|k: int| 0 <= k < ts1.len() implies ts1[k] == ts2[k] by {
        assert(n1[k] == ts1[k]);
        assert(n2[k] == ts2[k]);
    }
    assert(ts1 =~~= ts2);
}

/// Law: re-running the same `(app, action)` with the same directory choice
/// collides exactly when the equal-length timestamps coincide — differing
/// timestamps give two distinct files, a repeated timestamp overwrites.
/// The timestamps must not begin with a path separator, as no clock
/// renders one that does.
pub proof fn lemma_log_path_collision(
    dir_ok: bool,
    log_dir: Seq<char>,
    script_dir: Seq<char>,
    app: Seq<char>,
    action: Seq<char>,
    ts1: Seq<char>,
    ts2: Seq<char>,
)
    requires
        ts1.len() == ts2.len(),
        ts1.len() > 0,
        ts1[0] != '/',
        ts2[0] != '/',
    ensures
        (log_path_spec(dir_ok, log_dir, script_dir, log_file_name_spec(ts1, app, action))
            == log_path_spec(dir_ok, log_dir, script_dir, log_file_name_spec(ts2, app, action)))
            <==> ts1 == ts2,
{
    let n1 = log_file_name_spec(ts1, app, action);
    let n2 = log_file_name_spec(ts2, app, action);
    let base = if dir_ok {
        log_dir
    } else {
        script_dir
    };
    assert(n1[0] == ts1[0] && n2[0] == ts2[0]);
    assert(n1[0] != '/' && n2[0] != '/');
    if log_path_spec(dir_ok, log_dir, script_dir, n1) == log_path_spec(dir_ok, log_dir, script_dir, n2) {
        if base.len() > 0 && base.last() == '/' {
            lemma_concat_cancel(base, n1, n2);
        } else {
            lemma_concat_cancel(base + seq!['/'], n1, n2);
            assert(base + seq!['/'] + n1 =~~= (base + seq!['/']) + n1);
            assert(base + seq!['/'] + n2 =~~= (base + seq!['/']) + n2);
        }
        lemma_name_timestamp_inj(ts1, ts2, app, action);
    }
}

} // verus!
