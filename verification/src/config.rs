//! The configuration data model and its parser.  A configuration text is a
//! list of lines: `[Name]` opens an application section, `key = value` inside
//! a section declares an action (with `working_dir` and `log_dir` reserved
//! for the section's directories), and `key = value` before any section sets
//! the global log directory or container command.  Blank lines and lines
//! starting with `#` are skipped.

use vstd::prelude::*;

use crate::strutil::{
    find_char_spec, find_char_str, split_spec, split_str, str_eq, trim_spec, trim_str,
};

verus! {

/// One action: a name bound to a shell command.
#[derive(Debug, Clone)]
pub struct ActionEntry {
    pub name: String,
    pub command: String,
}

/// One application: a name, its actions in declaration order, and its
/// optional working and log directories.
#[derive(Debug, Clone)]
pub struct AppEntry {
    pub name: String,
    pub actions: Vec<ActionEntry>,
    pub working_dir: Option<String>,
    pub log_dir: Option<String>,
}

/// A parsed configuration: applications in declaration order plus the
/// global settings seen before the first section.
#[derive(Debug, Clone)]
pub struct Config {
    pub apps: Vec<AppEntry>,
    pub global_log_dir: Option<String>,
    pub global_container: Option<String>,
}

/// Mathematical model of an action.
#[verifier::ext_equal]
pub struct ActionModel {
    pub name: Seq<char>,
    pub command: Seq<char>,
}

/// Mathematical model of an application.
#[verifier::ext_equal]
pub struct AppModel {
    pub name: Seq<char>,
    pub actions: Seq<ActionModel>,
    pub working_dir: Option<Seq<char>>,
    pub log_dir: Option<Seq<char>>,
}

/// Mathematical model of a configuration.
#[verifier::ext_equal]
pub struct ConfigModel {
    pub apps: Seq<AppModel>,
    pub global_log_dir: Option<Seq<char>>,
    pub global_container: Option<Seq<char>>,
}

impl View for ActionEntry {
    type V = ActionModel;

    open spec fn view(&self) -> ActionModel {
        ActionModel { name: self.name@, command: self.command@ }
    }
}

impl DeepView for ActionEntry {
    type V = ActionModel;

    open spec fn deep_view(&self) -> ActionModel {
        self@
    }
}

impl View for AppEntry {
    type V = AppModel;

    open spec fn view(&self) -> AppModel {
        AppModel {
            name: self.name@,
            actions: self.actions.deep_view(),
            working_dir: self.working_dir.deep_view(),
            log_dir: self.log_dir.deep_view(),
        }
    }
}

impl DeepView for AppEntry {
    type V = AppModel;

    open spec fn deep_view(&self) -> AppModel {
        self@
    }
}

impl View for Config {
    type V = ConfigModel;

    open spec fn view(&self) -> ConfigModel {
        ConfigModel {
            apps: self.apps.deep_view(),
            global_log_dir: self.global_log_dir.deep_view(),
            global_container: self.global_container.deep_view(),
        }
    }
}

/// Index of the first application with the given name, or -1.
pub open spec fn app_index(apps: Seq<AppModel>, name: Seq<char>) -> int
    decreases apps.len(),
{
    if apps.len() == 0 {
        -1
    } else if apps[0].name == name {
        0
    } else {
        let r = app_index(apps.drop_first(), name);
        if r == -1 {
            -1
        } else {
            r + 1
        }
    }
}

/// Index of the first action with the given name, or -1.
pub open spec fn action_index(acts: Seq<ActionModel>, name: Seq<char>) -> int
    decreases acts.len(),
{
    if acts.len() == 0 {
        -1
    } else if acts[0].name == name {
        0
    } else {
        let r = action_index(acts.drop_first(), name);
        if r == -1 {
            -1
        } else {
            r + 1
        }
    }
}

proof fn lemma_app_index_from_scan(apps: Seq<AppModel>, name: Seq<char>, i: int)
    requires
        0 <= i <= apps.len(),
        forall|k: int| 0 <= k < i ==> apps[k].name != name,
        i == apps.len() || apps[i].name == name,
    ensures
        app_index(apps, name) == if i == apps.len() {
            -1int
        } else {
            i
        },
    decreases i,
{
    if i == 0 {
        if apps.len() > 0 && apps[0].name != name {
            lemma_app_index_from_scan(apps.drop_first(), name, 0);
        }
    } else {
        lemma_app_index_from_scan(apps.drop_first(), name, i - 1);
    }
}

proof fn lemma_action_index_from_scan(acts: Seq<ActionModel>, name: Seq<char>, i: int)
    requires
        0 <= i <= acts.len(),
        forall|k: int| 0 <= k < i ==> acts[k].name != name,
        i == acts.len() || acts[i].name == name,
    ensures
        action_index(acts, name) == if i == acts.len() {
            -1int
        } else {
            i
        },
    decreases i,
{
    if i == 0 {
        if acts.len() > 0 && acts[0].name != name {
            lemma_action_index_from_scan(acts.drop_first(), name, 0);
        }
    } else {
        lemma_action_index_from_scan(acts.drop_first(), name, i - 1);
    }
}

/// Characterises `app_index`: either absent everywhere or the first hit.
proof fn lemma_app_index_props(apps: Seq<AppModel>, name: Seq<char>)
    ensures
        app_index(apps, name) == -1 ==> forall|k: int|
            0 <= k < apps.len() ==> apps[k].name != name,
        app_index(apps, name) != -1 ==> 0 <= app_index(apps, name) < apps.len() && apps[app_index(
            apps,
            name,
        )].name == name,
    decreases apps.len(),
{
    if apps.len() > 0 && apps[0].name != name {
        lemma_app_index_props(apps.drop_first(), name);
        if app_index(apps, name) == -1 {
            assert forall|k: int| 0 <= k < apps.len() implies apps[k].name != name by {
                if k > 0 {
                    assert(apps.drop_first()[k - 1] == apps[k]);
                }
            }
        }
    }
}

proof fn lemma_action_index_props(acts: Seq<ActionModel>, name: Seq<char>)
    ensures
        action_index(acts, name) == -1 ==> forall|k: int|
            0 <= k < acts.len() ==> acts[k].name != name,
        action_index(acts, name) != -1 ==> 0 <= action_index(acts, name) < acts.len()
            && acts[action_index(acts, name)].name == name,
    decreases acts.len(),
{
    if acts.len() > 0 && acts[0].name != name {
        lemma_action_index_props(acts.drop_first(), name);
        if action_index(acts, name) == -1 {
            assert forall|k: int| 0 <= k < acts.len() implies acts[k].name != name by {
                if k > 0 {
                    assert(acts.drop_first()[k - 1] == acts[k]);
                }
            }
        }
    }
}

fn find_app_index(apps: &Vec<AppEntry>, name: &str) -> (r: Option<usize>)
    ensures
        match r {
            Some(i) => i == app_index(apps.deep_view(), name@) && i < apps@.len(),
            None => app_index(apps.deep_view(), name@) == -1,
        },
{
    let n = apps.len();
    let mut i: usize = 0;
    while i < n
        invariant
            n == apps@.len(),
            i <= n,
            forall|k: int| 0 <= k < i ==> apps@[k]@.name != name@,
        decreases n - i,
    {
        if str_eq(apps[i].name.as_str(), name) {
            proof {
                assert(apps.deep_view()[i as int].name == name@);
                lemma_app_index_from_scan(apps.deep_view(), name@, i as int);
            }
            return Some(i);
        }
        i += 1;
    }
    proof {
        lemma_app_index_from_scan(apps.deep_view(), name@, n as int);
    }
    None
}

fn find_action_index(acts: &Vec<ActionEntry>, name: &str) -> (r: Option<usize>)
    ensures
        match r {
            Some(i) => i == action_index(acts.deep_view(), name@) && i < acts@.len(),
            None => action_index(acts.deep_view(), name@) == -1,
        },
{
    let n = acts.len();
    let mut i: usize = 0;
    while i < n
        invariant
            n == acts@.len(),
            i <= n,
            forall|k: int| 0 <= k < i ==> acts@[k]@.name != name@,
        decreases n - i,
    {
        if str_eq(acts[i].name.as_str(), name) {
            proof {
                assert(acts.deep_view()[i as int].name == name@);
                lemma_action_index_from_scan(acts.deep_view(), name@, i as int);
            }
            return Some(i);
        }
        i += 1;
    }
    proof {
        lemma_action_index_from_scan(acts.deep_view(), name@, n as int);
    }
    None
}

/// Replaces the command of an existing action, in place, or appends a new
/// action at the end.
pub open spec fn upsert_action(
    acts: Seq<ActionModel>,
    name: Seq<char>,
    cmd: Seq<char>,
) -> Seq<ActionModel> {
    let i = action_index(acts, name);
    if 0 <= i < acts.len() {
        acts.update(i, ActionModel { name: name, command: cmd })
    } else {
        acts.push(ActionModel { name: name, command: cmd })
    }
}

/// Appends a new, empty application unless the name is already declared.
pub open spec fn add_app(m: ConfigModel, name: Seq<char>) -> ConfigModel {
    if app_index(m.apps, name) != -1 {
        m
    } else {
        ConfigModel {
            apps: m.apps.push(
                AppModel {
                    name: name,
                    actions: Seq::empty(),
                    working_dir: None,
                    log_dir: None,
                },
            ),
            global_log_dir: m.global_log_dir,
            global_container: m.global_container,
        }
    }
}

/// Sets the working directory of the named application, if declared.
pub open spec fn set_app_working_dir(m: ConfigModel, app: Seq<char>, value: Seq<char>) -> ConfigModel {
    let i = app_index(m.apps, app);
    if 0 <= i < m.apps.len() {
        ConfigModel {
            apps: m.apps.update(
                i,
                AppModel {
                    name: m.apps[i].name,
                    actions: m.apps[i].actions,
                    working_dir: Some(value),
                    log_dir: m.apps[i].log_dir,
                },
            ),
            global_log_dir: m.global_log_dir,
            global_container: m.global_container,
        }
    } else {
        m
    }
}

/// Sets the log directory of the named application, if declared.
pub open spec fn set_app_log_dir(m: ConfigModel, app: Seq<char>, value: Seq<char>) -> ConfigModel {
    let i = app_index(m.apps, app);
    if 0 <= i < m.apps.len() {
        ConfigModel {
            apps: m.apps.update(
                i,
                AppModel {
                    name: m.apps[i].name,
                    actions: m.apps[i].actions,
                    working_dir: m.apps[i].working_dir,
                    log_dir: Some(value),
                },
            ),
            global_log_dir: m.global_log_dir,
            global_container: m.global_container,
        }
    } else {
        m
    }
}

/// Declares or overwrites an action of the named application, if declared.
pub open spec fn add_action(
    m: ConfigModel,
    app: Seq<char>,
    key: Seq<char>,
    value: Seq<char>,
) -> ConfigModel {
    let i = app_index(m.apps, app);
    if 0 <= i < m.apps.len() {
        ConfigModel {
            apps: m.apps.update(
                i,
                AppModel {
                    name: m.apps[i].name,
                    actions: upsert_action(m.apps[i].actions, key, value),
                    working_dir: m.apps[i].working_dir,
                    log_dir: m.apps[i].log_dir,
                },
            ),
            global_log_dir: m.global_log_dir,
            global_container: m.global_container,
        }
    } else {
        m
    }
}

/// The parser's state: the configuration built so far and the section the
/// cursor is in, if any.
#[verifier::ext_equal]
pub struct ParseState {
    pub model: ConfigModel,
    pub current: Option<Seq<char>>,
}

/// The section name of a trimmed header line `[Name]`, untrimmed inner text
/// trimmed; `None` when the line is not a header.
pub open spec fn header_name(line: Seq<char>) -> Option<Seq<char>> {
    if line.len() >= 2 && line[0] == '[' && line[line.len() - 1] == ']' {
        Some(trim_spec(line.subrange(1, line.len() - 1)))
    } else {
        None
    }
}

/// The trimmed key and value of a `key = value` line, split at the first
/// `=`; `None` when the line has no `=`.
pub open spec fn kv_split(line: Seq<char>) -> Option<(Seq<char>, Seq<char>)> {
    let i = find_char_spec(line, '=');
    if 0 <= i < line.len() {
        Some((trim_spec(line.subrange(0, i)), trim_spec(line.subrange(i + 1, line.len() as int))))
    } else {
        None
    }
}

/// Applies one `key = value` line in the given parser state.
pub open spec fn apply_kv(st: ParseState, key: Seq<char>, value: Seq<char>) -> ParseState {
    if key.len() == 0 {
        st
    } else {
        match st.current {
            Some(app) => {
                if key == "working_dir"@ {
                    ParseState { model: set_app_working_dir(st.model, app, value), current: st.current }
                } else if key == "log_dir"@ {
                    ParseState { model: set_app_log_dir(st.model, app, value), current: st.current }
                } else {
                    ParseState { model: add_action(st.model, app, key, value), current: st.current }
                }
            },
            None => {
                if key == "log_dir"@ {
                    ParseState {
                        model: ConfigModel {
                            apps: st.model.apps,
                            global_log_dir: Some(value),
                            global_container: st.model.global_container,
                        },
                        current: None,
                    }
                } else if key == "container"@ {
                    ParseState {
                        model: ConfigModel {
                            apps: st.model.apps,
                            global_log_dir: st.model.global_log_dir,
                            global_container: Some(value),
                        },
                        current: None,
                    }
                } else {
                    st
                }
            },
        }
    }
}

/// Applies one raw configuration line to the parser state.
pub open spec fn apply_line(st: ParseState, raw: Seq<char>) -> ParseState {
    let line = trim_spec(raw);
    if line.len() == 0 || line[0] == '#' {
        st
    } else {
        match header_name(line) {
            Some(name) => {
                if name.len() == 0 {
                    st
                } else {
                    ParseState { model: add_app(st.model, name), current: Some(name) }
                }
            },
            None => {
                match kv_split(line) {
                    Some(kv) => apply_kv(st, kv.0, kv.1),
                    None => st,
                }
            },
        }
    }
}

/// Folds `apply_line` over a list of lines.
pub open spec fn parse_lines_from(st: ParseState, lines: Seq<Seq<char>>) -> ParseState
    decreases lines.len(),
{
    if lines.len() == 0 {
        st
    } else {
        parse_lines_from(apply_line(st, lines[0]), lines.drop_first())
    }
}

/// The parser's starting state: no applications, no globals, no section.
pub open spec fn initial_state() -> ParseState {
    ParseState {
        model: ConfigModel { apps: Seq::empty(), global_log_dir: None, global_container: None },
        current: None,
    }
}

/// The configuration denoted by a whole configuration text.
pub open spec fn parse_config_spec(content: Seq<char>) -> ConfigModel {
    parse_lines_from(initial_state(), split_spec(content, '\n')).model
}

proof fn lemma_parse_lines_snoc(st: ParseState, lines: Seq<Seq<char>>, x: Seq<char>)
    ensures
        parse_lines_from(st, lines.push(x)) == apply_line(parse_lines_from(st, lines), x),
    decreases lines.len(),
{
    reveal_with_fuel(parse_lines_from, 2);
    if lines.len() == 0 {
        assert(lines.push(x).drop_first() =~~= Seq::<Seq<char>>::empty());
        assert(lines.push(x)[0] == x);
    } else {
        assert(lines.push(x).drop_first() =~~= lines.drop_first().push(x));
        lemma_parse_lines_snoc(apply_line(st, lines[0]), lines.drop_first(), x);
    }
}

/// Application names are pairwise distinct.
pub open spec fn distinct_app_names(apps: Seq<AppModel>) -> bool {
    forall|i: int, j: int| 0 <= i < j < apps.len() ==> apps[i].name != apps[j].name
}

/// Action names are pairwise distinct within one application.
pub open spec fn distinct_action_names(acts: Seq<ActionModel>) -> bool {
    forall|i: int, j: int| 0 <= i < j < acts.len() ==> acts[i].name != acts[j].name
}

/// Well-formedness of a configuration: application names unique, and action
/// names unique within each application.
pub open spec fn config_wf(m: ConfigModel) -> bool {
    &&& distinct_app_names(m.apps)
    &&& forall|i: int| 0 <= i < m.apps.len() ==> distinct_action_names(#[trigger] m.apps[i].actions)
}

proof fn lemma_upsert_preserves_distinct(acts: Seq<ActionModel>, name: Seq<char>, cmd: Seq<char>)
    requires
        distinct_action_names(acts),
    ensures
        distinct_action_names(upsert_action(acts, name, cmd)),
{
    lemma_action_index_props(acts, name);
    let i = action_index(acts, name);
    if 0 <= i < acts.len() {
        let r = acts.update(i, ActionModel { name: name, command: cmd });
        assert forall|a: int, b: int| 0 <= a < b < r.len() implies r[a].name != r[b].name by {
            if a != i && b != i {
                assert(r[a] == acts[a] && r[b] == acts[b]);
            } else if a == i {
                assert(r[b] == acts[b]);
                assert(acts[i].name == name);
            } else {
                assert(r[a] == acts[a]);
                assert(acts[i].name == name);
            }
        }
    } else {
        let r = acts.push(ActionModel { name: name, command: cmd });
        assert forall|a: int, b: int| 0 <= a < b < r.len() implies r[a].name != r[b].name by {
            if b == acts.len() {
                assert(r[a] == acts[a]);
            } else {
                assert(r[a] == acts[a] && r[b] == acts[b]);
            }
        }
    }
}

proof fn lemma_apply_line_wf(st: ParseState, raw: Seq<char>)
    requires
        config_wf(st.model),
    ensures
        config_wf(apply_line(st, raw).model),
{
    let line = trim_spec(raw);
    let m = st.model;
    if line.len() == 0 || line[0] == '#' {
    } else {
        match header_name(line) {
            Some(name) => {
                if name.len() != 0 {
                    lemma_app_index_props(m.apps, name);
                    if app_index(m.apps, name) == -1 {
                        let r = add_app(m, name).apps;
                        assert forall|a: int, b: int|
                            0 <= a < b < r.len() implies r[a].name != r[b].name by {
                            if b == m.apps.len() {
                                assert(r[a] == m.apps[a]);
                            } else {
                                assert(r[a] == m.apps[a] && r[b] == m.apps[b]);
                            }
                        }
                        assert forall|i: int|
                            0 <= i < r.len() implies distinct_action_names(#[trigger] r[i].actions) by {
                            if i < m.apps.len() {
                                assert(r[i] == m.apps[i]);
                            } else {
                                assert(r[i].actions =~~= Seq::<ActionModel>::empty());
                            }
                        }
                    }
                }
            },
            None => {
                match kv_split(line) {
                    Some(kv) => {
                        lemma_apply_kv_wf(st, kv.0, kv.1);
                    },
                    None => {},
                }
            },
        }
    }
}

proof fn lemma_apply_kv_wf(st: ParseState, key: Seq<char>, value: Seq<char>)
    requires
        config_wf(st.model),
    ensures
        config_wf(apply_kv(st, key, value).model),
{
    let m = st.model;
    if key.len() == 0 {
    } else {
        match st.current {
            Some(app) => {
                lemma_app_index_props(m.apps, app);
                let i = app_index(m.apps, app);
                if 0 <= i < m.apps.len() {
                    if key == "working_dir"@ || key == "log_dir"@ {
                        let r = apply_kv(st, key, value).model.apps;
                        assert forall|a: int, b: int|
                            0 <= a < b < r.len() implies r[a].name != r[b].name by {
                            assert(r[a].name == m.apps[a].name && r[b].name == m.apps[b].name);
                        }
                        assert forall|j: int|
                            0 <= j < r.len() implies distinct_action_names(#[trigger] r[j].actions) by {
                            if j != i {
                                assert(r[j] == m.apps[j]);
                            } else {
                                assert(r[j].actions == m.apps[i].actions);
                            }
                        }
                    } else {
                        lemma_upsert_preserves_distinct(m.apps[i].actions, key, value);
                        let r = add_action(m, app, key, value).apps;
                        assert forall|a: int, b: int|
                            0 <= a < b < r.len() implies r[a].name != r[b].name by {
                            assert(r[a].name == m.apps[a].name && r[b].name == m.apps[b].name);
                        }
                        assert forall|j: int|
                            0 <= j < r.len() implies distinct_action_names(#[trigger] r[j].actions) by {
                            if j != i {
                                assert(r[j] == m.apps[j]);
                            }
                        }
                    }
                }
            },
            None => {},
        }
    }
}

/// A parsed configuration is well-formed.
pub proof fn lemma_parse_wf(st: ParseState, lines: Seq<Seq<char>>)
    requires
        config_wf(st.model),
    ensures
        config_wf(parse_lines_from(st, lines).model),
    decreases lines.len(),
{
    if lines.len() > 0 {
        lemma_apply_line_wf(st, lines[0]);
        lemma_parse_wf(apply_line(st, lines[0]), lines.drop_first());
    }
}

proof fn lemma_remove_insert_update(s: Seq<AppEntry>, i: int, e: AppEntry)
    requires
        0 <= i < s.len(),
    ensures
        s.remove(i).insert(i, e).len() == s.len(),
        forall|k: int| 0 <= k < s.len() ==> s.remove(i).insert(i, e)[k] == (if k == i {
            e
        } else {
            s[k]
        }),
{
    s.remove_ensures(i);
    s.remove(i).insert_ensures(i, e);
    assert forall|k: int| 0 <= k < s.len() implies s.remove(i).insert(i, e)[k] == (if k == i {
        e
    } else {
        s[k]
    }) by {
        if k > i {
            assert(s.remove(i).insert(i, e)[k] == s.remove(i)[k - 1]);
        }
    }
}

fn add_app_exec(c: &mut Config, name: &String)
    ensures
        final(c)@ == add_app(old(c)@, name@),
{
    let ghost m0 = c@;
    match find_app_index(&c.apps, name.as_str()) {
        Some(_) => {
            proof {
                assert(c@ =~~= add_app(m0, name@));
            }
        },
        None => {
            let ghost prev = c.apps@;
            c.apps.push(
                AppEntry {
                    name: name.clone(),
                    actions: Vec::new(),
                    working_dir: None,
                    log_dir: None,
                },
            );
            proof {
                assert forall|k: int|
                    0 <= k < c.apps@.len() implies c.apps.deep_view()[k] == add_app(
                    m0,
                    name@,
                ).apps[k] by {
                    if k < prev.len() {
                        assert(c.apps@[k] == prev[k]);
                        assert(prev[k]@ == m0.apps[k]);
                    } else {
                        assert(c.apps@[k]@.actions =~~= Seq::<ActionModel>::empty());
                        assert(c.apps@[k]@ =~~= add_app(m0, name@).apps[k]);
                    }
                }
                assert(c.apps.deep_view() =~~= add_app(m0, name@).apps);
                assert(c@ =~~= add_app(m0, name@));
            }
        },
    }
}

fn set_wd_exec(c: &mut Config, app: &str, value: String)
    ensures
        final(c)@ == set_app_working_dir(old(c)@, app@, value@),
{
    let ghost m0 = c@;
    match find_app_index(&c.apps, app) {
        None => {
            proof {
                assert(c@ =~~= set_app_working_dir(m0, app@, value@));
            }
        },
        Some(i) => {
            let ghost prev = c.apps@;
            let mut e = c.apps.remove(i);
            e.working_dir = Some(value);
            c.apps.insert(i, e);
            proof {
                lemma_remove_insert_update(prev, i as int, e);
                let target = set_app_working_dir(m0, app@, value@);
                assert forall|k: int|
                    0 <= k < c.apps@.len() implies c.apps.deep_view()[k] == target.apps[k] by {
                    if k == i as int {
                        assert(c.apps@[k] == e);
                        assert(e@ =~~= target.apps[k]);
                    } else {
                        assert(c.apps@[k] == prev[k]);
                        assert(prev[k]@ == m0.apps[k]);
                    }
                }
                assert(c.apps.deep_view() =~~= target.apps);
                assert(c@ =~~= target);
            }
        },
    }
}

fn set_ld_exec(c: &mut Config, app: &str, value: String)
    ensures
        final(c)@ == set_app_log_dir(old(c)@, app@, value@),
{
    let ghost m0 = c@;
    match find_app_index(&c.apps, app) {
        None => {
            proof {
                assert(c@ =~~= set_app_log_dir(m0, app@, value@));
            }
        },
        Some(i) => {
            let ghost prev = c.apps@;
            let mut e = c.apps.remove(i);
            e.log_dir = Some(value);
            c.apps.insert(i, e);
            proof {
                lemma_remove_insert_update(prev, i as int, e);
                let target = set_app_log_dir(m0, app@, value@);
                assert forall|k: int|
                    0 <= k < c.apps@.len() implies c.apps.deep_view()[k] == target.apps[k] by {
                    if k == i as int {
                        assert(c.apps@[k] == e);
                        assert(e@ =~~= target.apps[k]);
                    } else {
                        assert(c.apps@[k] == prev[k]);
                        assert(prev[k]@ == m0.apps[k]);
                    }
                }
                assert(c.apps.deep_view() =~~= target.apps);
                assert(c@ =~~= target);
            }
        },
    }
}

fn add_action_exec(c: &mut Config, app: &str, key: String, value: String)
    ensures
        final(c)@ == add_action(old(c)@, app@, key@, value@),
{
    let ghost m0 = c@;
    match find_app_index(&c.apps, app) {
        None => {
            proof {
                assert(c@ =~~= add_action(m0, app@, key@, value@));
            }
        },
        Some(i) => {
            let ghost prev = c.apps@;
            let mut e = c.apps.remove(i);
            let ghost acts0 = e.actions.deep_view();
            match find_action_index(&e.actions, key.as_str()) {
                Some(j) => {
                    let ghost acts_prev = e.actions@;
                    let _gone = e.actions.remove(j);
                    e.actions.insert(j, ActionEntry { name: key, command: value });
                    proof {
                        acts_prev.remove_ensures(j as int);
                        acts_prev.remove(j as int).insert_ensures(
                            j as int,
                            e.actions@[j as int],
                        );
                        assert forall|k: int|
                            0 <= k < e.actions@.len() implies e.actions.deep_view()[k]
                            == upsert_action(acts0, key@, value@)[k] by {
                            if k == j as int {
                                assert(e.actions@[k] == e.actions@[j as int]);
                            } else if k > j as int {
                                assert(e.actions@[k] == acts_prev.remove(j as int)[k - 1]);
                                assert(e.actions@[k] == acts_prev[k]);
                            } else {
                                assert(e.actions@[k] == acts_prev.remove(j as int)[k]);
                                assert(e.actions@[k] == acts_prev[k]);
                            }
                        }
                        assert(e.actions.deep_view() =~~= upsert_action(acts0, key@, value@));
                    }
                },
                None => {
                    let ghost acts_prev = e.actions@;
                    e.actions.push(ActionEntry { name: key, command: value });
                    proof {
                        assert forall|k: int|
                            0 <= k < e.actions@.len() implies e.actions.deep_view()[k]
                            == upsert_action(acts0, key@, value@)[k] by {
                            if k < acts_prev.len() {
                                assert(e.actions@[k] == acts_prev[k]);
                            }
                        }
                        assert(e.actions.deep_view() =~~= upsert_action(acts0, key@, value@));
                    }
                },
            }
            c.apps.insert(i, e);
            proof {
                lemma_remove_insert_update(prev, i as int, e);
                let target = add_action(m0, app@, key@, value@);
                assert forall|k: int|
                    0 <= k < c.apps@.len() implies c.apps.deep_view()[k] == target.apps[k] by {
                    if k == i as int {
                        assert(c.apps@[k] == e);
                        assert(e@ =~~= target.apps[k]);
                    } else {
                        assert(c.apps@[k] == prev[k]);
                        assert(prev[k]@ == m0.apps[k]);
                    }
                }
                assert(c.apps.deep_view() =~~= target.apps);
                assert(c@ =~~= target);
            }
        },
    }
}

fn apply_kv_exec(c: &mut Config, current: &Option<String>, key: String, value: String)
    ensures
        final(c)@ == apply_kv(
            (ParseState { model: old(c)@, current: current.deep_view() }),
            key@,
            value@,
        ).model,
{
    let ghost st0 = ParseState { model: c@, current: current.deep_view() };
    if key.as_str().unicode_len() == 0 {
        return ;
    }
    match current {
        Some(app) => {
            if str_eq(key.as_str(), "working_dir") {
                set_wd_exec(c, app.as_str(), value);
            } else if str_eq(key.as_str(), "log_dir") {
                set_ld_exec(c, app.as_str(), value);
            } else {
                add_action_exec(c, app.as_str(), key, value);
            }
        },
        None => {
            if str_eq(key.as_str(), "log_dir") {
                c.global_log_dir = Some(value);
                proof {
                    assert(c@ =~~= apply_kv(st0, key@, value@).model);
                }
            } else if str_eq(key.as_str(), "container") {
                c.global_container = Some(value);
                proof {
                    assert(c@ =~~= apply_kv(st0, key@, value@).model);
                }
            }
        },
    }
}

fn apply_line_exec(c: &mut Config, current: &mut Option<String>, raw: &str)
    ensures
        final(c)@ == apply_line(
            (ParseState { model: old(c)@, current: old(current).deep_view() }),
            raw@,
        ).model,
        final(current).deep_view() == apply_line(
            (ParseState { model: old(c)@, current: old(current).deep_view() }),
            raw@,
        ).current,
{
    let ghost st0 = ParseState { model: c@, current: current.deep_view() };
    let line = trim_str(raw);
    let ln = line.as_str().unicode_len();
    if ln == 0 {
        return ;
    }
    if line.as_str().get_char(0) == '#' {
        return ;
    }
    if ln >= 2 && line.as_str().get_char(0) == '[' && line.as_str().get_char(ln - 1) == ']' {
        let inner = line.as_str().substring_char(1, ln - 1);
        let name = trim_str(inner);
        if name.as_str().unicode_len() == 0 {
            return ;
        }
        add_app_exec(c, &name);
        *current = Some(name);
        return ;
    }
    proof {
        assert(header_name(line@) is None);
    }
    match find_char_str(line.as_str(), '=') {
        None => {},
        Some(eq) => {
            let key = trim_str(line.as_str().substring_char(0, eq));
            let value = trim_str(line.as_str().substring_char(eq + 1, ln));
            apply_kv_exec(c, &*current, key, value);
        },
    }
}

/// The error a configuration text can be rejected with.
#[derive(Debug, Clone, Copy, PartialEq, Eq, Structural)]
pub enum ConfigError {
    /// The text declares no application section at all.
    NoApplications,
}

/// The command bound to `(app, action)`, or `None` when either name is not
/// declared.
pub open spec fn lookup_command_spec(
    m: ConfigModel,
    app: Seq<char>,
    action: Seq<char>,
) -> Option<Seq<char>> {
    let i = app_index(m.apps, app);
    if 0 <= i < m.apps.len() {
        let j = action_index(m.apps[i].actions, action);
        if 0 <= j < m.apps[i].actions.len() {
            Some(m.apps[i].actions[j].command)
        } else {
            None
        }
    } else {
        None
    }
}

/// The names of a list of actions, in order.
pub open spec fn action_names_of(acts: Seq<ActionModel>) -> Seq<Seq<char>> {
    acts.map_values(|a: ActionModel| a.name)
}

/// The action names of the named application, empty when it is not declared.
pub open spec fn actions_lookup_spec(m: ConfigModel, app: Seq<char>) -> Seq<Seq<char>> {
    let i = app_index(m.apps, app);
    if 0 <= i < m.apps.len() {
        action_names_of(m.apps[i].actions)
    } else {
        Seq::empty()
    }
}

/// The application names, in declaration order.
pub open spec fn app_names_spec(m: ConfigModel) -> Seq<Seq<char>> {
    m.apps.map_values(|a: AppModel| a.name)
}

/// The working directory of the named application, if declared.
pub open spec fn working_dir_spec(m: ConfigModel, app: Seq<char>) -> Option<Seq<char>> {
    let i = app_index(m.apps, app);
    if 0 <= i < m.apps.len() {
        m.apps[i].working_dir
    } else {
        None
    }
}

/// The log directory of the named application, if declared.
pub open spec fn log_dir_spec(m: ConfigModel, app: Seq<char>) -> Option<Seq<char>> {
    let i = app_index(m.apps, app);
    if 0 <= i < m.apps.len() {
        m.apps[i].log_dir
    } else {
        None
    }
}

impl Config {
    /// Parses a configuration text into its model, rejecting a text that
    /// declares no application.
    pub fn parse(content: &str) -> (r: Result<Config, ConfigError>)
        ensures
            match r {
                Ok(c) => c@ == parse_config_spec(content@) && config_wf(c@) && c@.apps.len() > 0,
                Err(e) => e == ConfigError::NoApplications && parse_config_spec(
                    content@,
                ).apps.len() == 0,
            },
    {
        let lines = split_str(content, '\n');
        let mut cfg = Config { apps: Vec::new(), global_log_dir: None, global_container: None };
        let mut current: Option<String> = None;
        proof {
            assert(cfg@ =~~= initial_state().model);
            assert(split_spec(content@, '\n').take(0) =~~= Seq::<Seq<char>>::empty());
        }
        let n = lines.len();
        let mut i: usize = 0;
        while i < n
            invariant
                n == lines@.len(),
                lines.deep_view() == split_spec(content@, '\n'),
                i <= n,
                (ParseState { model: cfg@, current: current.deep_view() }) == parse_lines_from(
                    initial_state(),
                    split_spec(content@, '\n').take(i as int),
                ),
            decreases n - i,
        {
            apply_line_exec(&mut cfg, &mut current, lines[i].as_str());
            proof {
                lemma_parse_lines_snoc(
                    initial_state(),
                    split_spec(content@, '\n').take(i as int),
                    split_spec(content@, '\n')[i as int],
                );
                assert(split_spec(content@, '\n').take(i + 1) =~~= split_spec(
                    content@,
                    '\n',
                ).take(i as int).push(split_spec(content@, '\n')[i as int]));
                assert(lines.deep_view()[i as int] == lines@[i as int]@);
                assert((ParseState { model: cfg@, current: current.deep_view() })
                    =~~= parse_lines_from(
                    initial_state(),
                    split_spec(content@, '\n').take(i + 1),
                ));
            }
            i += 1;
        }
        proof {
            assert(split_spec(content@, '\n').take(n as int) =~~= split_spec(content@, '\n'));
            lemma_parse_wf(initial_state(), split_spec(content@, '\n'));
        }
        if cfg.apps.len() == 0 {
            Err(ConfigError::NoApplications)
        } else {
            Ok(cfg)
        }
    }

    /// The command configured for `(app, action)`.
    pub fn get_command(&self, app: &str, action: &str) -> (r: Option<String>)
        ensures
            r.deep_view() == lookup_command_spec(self@, app@, action@),
    {
        match find_app_index(&self.apps, app) {
            None => None,
            Some(i) => {
                proof {
                    assert(self.apps.deep_view()[i as int] == self@.apps[i as int]);
                }
                match find_action_index(&self.apps[i].actions, action) {
                    None => None,
                    Some(j) => Some(self.apps[i].actions[j].command.clone()),
                }
            },
        }
    }

    /// The declared action names of an application, empty when the
    /// application is unknown.
    pub fn get_actions(&self, app: &str) -> (r: Vec<String>)
        ensures
            r.deep_view() == actions_lookup_spec(self@, app@),
    {
        let mut out: Vec<String> = Vec::new();
        match find_app_index(&self.apps, app) {
            None => {
                proof {
                    assert(out.deep_view() =~~= actions_lookup_spec(self@, app@));
                }
            },
            Some(i) => {
                proof {
                    assert(self.apps.deep_view()[i as int] == self@.apps[i as int]);
                }
                let acts = &self.apps[i].actions;
                let n = acts.len();
                let mut k: usize = 0;
                while k < n
                    invariant
                        n == acts@.len(),
                        k <= n,
                        out@.len() == k,
                        forall|j: int| 0 <= j < k ==> out@[j]@ == acts@[j]@.name,
                    decreases n - k,
                {
                    let ghost prev = out@;
                    out.push(acts[k].name.clone());
                    proof {
                        assert forall|j: int| 0 <= j < k + 1 implies out@[j]@ == acts@[j]@.name by {
                            if j < k {
                                assert(out@[j] == prev[j]);
                                assert(prev[j]@ == acts@[j]@.name);
                            }
                        }
                    }
                    k += 1;
                }
                proof {
                    assert forall|j: int|
                        0 <= j < n implies out.deep_view()[j] == actions_lookup_spec(
                        self@,
                        app@,
                    )[j] by {
                        assert(out@[j]@ == acts@[j]@.name);
                        assert(acts.deep_view()[j] == acts@[j]@);
                    }
                    assert(out.deep_view() =~~= actions_lookup_spec(self@, app@));
                }
            },
        }
        out
    }

    /// The application names, in declaration order.
    pub fn app_names(&self) -> (r: Vec<String>)
        ensures
            r.deep_view() == app_names_spec(self@),
    {
        let mut out: Vec<String> = Vec::new();
        let n = self.apps.len();
        let mut k: usize = 0;
        while k < n
            invariant
                n == self.apps@.len(),
                k <= n,
                out@.len() == k,
                forall|j: int| 0 <= j < k ==> out@[j]@ == self.apps@[j]@.name,
            decreases n - k,
        {
            let ghost prev = out@;
            out.push(self.apps[k].name.clone());
            proof {
                assert forall|j: int| 0 <= j < k + 1 implies out@[j]@ == self.apps@[j]@.name by {
                    if j < k {
                        assert(out@[j] == prev[j]);
                        assert(prev[j]@ == self.apps@[j]@.name);
                    }
                }
            }
            k += 1;
        }
        proof {
            assert forall|j: int|
                0 <= j < n implies out.deep_view()[j] == app_names_spec(self@)[j] by {
                assert(out@[j]@ == self.apps@[j]@.name);
                assert(self.apps.deep_view()[j] == self.apps@[j]@);
            }
            assert(out.deep_view() =~~= app_names_spec(self@));
        }
        out
    }

    /// The working directory declared for an application, if any.
    pub fn working_dir_of(&self, app: &str) -> (r: Option<String>)
        ensures
            r.deep_view() == working_dir_spec(self@, app@),
    {
        match find_app_index(&self.apps, app) {
            None => None,
            Some(i) => {
                proof {
                    assert(self.apps.deep_view()[i as int] == self@.apps[i as int]);
                }
                match &self.apps[i].working_dir {
                    Some(s) => Some(s.clone()),
                    None => None,
                }
            },
        }
    }

    /// The log directory declared for an application, if any.
    pub fn log_dir_of(&self, app: &str) -> (r: Option<String>)
        ensures
            r.deep_view() == log_dir_spec(self@, app@),
    {
        match find_app_index(&self.apps, app) {
            None => None,
            Some(i) => {
                proof {
                    assert(self.apps.deep_view()[i as int] == self@.apps[i as int]);
                }
                match &self.apps[i].log_dir {
                    Some(s) => Some(s.clone()),
                    None => None,
                }
            },
        }
    }
}

} // verus!
