//! Target resolution: expands an application pattern and an action pattern
//! against a configuration into the ordered, deduplicated list of
//! `(application, action)` pairs to execute.  Resolution never fabricates a
//! pair that the configuration does not declare.

use vstd::prelude::*;

use crate::config::{actions_lookup_spec, app_names_spec, Config, ConfigModel};
use crate::matcher::{match_actions_fuzzy, match_actions_spec, match_apps_fuzzy, match_apps_spec};

verus! {

/// One resolved `(application, action)` pair.
#[derive(Debug, Clone)]
pub struct Target {
    pub app: String,
    pub action: String,
}

/// Mathematical model of a target.
#[verifier::ext_equal]
pub struct TargetModel {
    pub app: Seq<char>,
    pub action: Seq<char>,
}

impl View for Target {
    type V = TargetModel;

    open spec fn view(&self) -> TargetModel {
        TargetModel { app: self.app@, action: self.action@ }
    }
}

impl DeepView for Target {
    type V = TargetModel;

    open spec fn deep_view(&self) -> TargetModel {
        self@
    }
}

/// Why resolution produced no targets.
#[derive(Debug, Clone, Copy, PartialEq, Eq, Structural)]
pub enum ResolveError {
    /// No application name matched the application pattern.
    NoApplicationsMatched,
    /// Applications matched, but no action of any of them matched the
    /// action pattern.
    NoActionsMatched,
}

/// A successful resolution: the matched applications, the targets in
/// dispatch order, and the matched applications that contributed no action
/// (reported as warnings, not errors).
#[derive(Debug, Clone)]
pub struct Resolution {
    pub matched_apps: Vec<String>,
    pub targets: Vec<Target>,
    pub apps_without_actions: Vec<String>,
}

/// Mathematical model of a resolution.
#[verifier::ext_equal]
pub struct ResolutionModel {
    pub matched_apps: Seq<Seq<char>>,
    pub targets: Seq<TargetModel>,
    pub apps_without_actions: Seq<Seq<char>>,
}

impl View for Resolution {
    type V = ResolutionModel;

    open spec fn view(&self) -> ResolutionModel {
        ResolutionModel {
            matched_apps: self.matched_apps.deep_view(),
            targets: self.targets.deep_view(),
            apps_without_actions: self.apps_without_actions.deep_view(),
        }
    }
}

/// The actions of one application that an action pattern selects.
pub open spec fn app_matched_actions(
    m: ConfigModel,
    app: Seq<char>,
    action_pattern: Seq<char>,
) -> Seq<Seq<char>> {
    match_actions_spec(actions_lookup_spec(m, app), action_pattern)
}

/// The targets one application contributes, in action-match order.
pub open spec fn targets_of_app(app: Seq<char>, acts: Seq<Seq<char>>) -> Seq<TargetModel> {
    acts.map_values(|a: Seq<char>| TargetModel { app: app, action: a })
}

/// The targets of a list of matched applications, in order.
pub open spec fn targets_for_apps(
    m: ConfigModel,
    apps: Seq<Seq<char>>,
    action_pattern: Seq<char>,
) -> Seq<TargetModel>
    decreases apps.len(),
{
    if apps.len() == 0 {
        Seq::empty()
    } else {
        targets_of_app(apps[0], app_matched_actions(m, apps[0], action_pattern))
            + targets_for_apps(m, apps.drop_first(), action_pattern)
    }
}

/// The matched applications whose action list yields no match.
pub open spec fn warned_apps_spec(
    m: ConfigModel,
    apps: Seq<Seq<char>>,
    action_pattern: Seq<char>,
) -> Seq<Seq<char>>
    decreases apps.len(),
{
    if apps.len() == 0 {
        Seq::empty()
    } else {
        (if app_matched_actions(m, apps[0], action_pattern).len() == 0 {
            seq![apps[0]]
        } else {
            Seq::empty()
        }) + warned_apps_spec(m, apps.drop_first(), action_pattern)
    }
}

/// What resolving the two patterns against a configuration yields.
pub open spec fn resolve_spec(
    m: ConfigModel,
    app_pattern: Seq<char>,
    action_pattern: Seq<char>,
) -> Result<ResolutionModel, ResolveError> {
    let apps = match_apps_spec(app_names_spec(m), app_pattern);
    if apps.len() == 0 {
        Err(ResolveError::NoApplicationsMatched)
    } else {
        let ts = targets_for_apps(m, apps, action_pattern);
        if ts.len() == 0 {
            Err(ResolveError::NoActionsMatched)
        } else {
            Ok(
                ResolutionModel {
                    matched_apps: apps,
                    targets: ts,
                    apps_without_actions: warned_apps_spec(m, apps, action_pattern),
                },
            )
        }
    }
}

/// The action pattern `all` selects every declared action of an
/// application, regardless of the matching rules.
pub proof fn lemma_action_pattern_all(m: ConfigModel, app: Seq<char>)
    ensures
        app_matched_actions(m, app, "all"@) == actions_lookup_spec(m, app),
{
}

proof fn lemma_targets_snoc(
    m: ConfigModel,
    apps: Seq<Seq<char>>,
    action_pattern: Seq<char>,
    x: Seq<char>,
)
    ensures
        targets_for_apps(m, apps.push(x), action_pattern) == targets_for_apps(
            m,
            apps,
            action_pattern,
        ) + targets_of_app(x, app_matched_actions(m, x, action_pattern)),
    decreases apps.len(),
{
    reveal_with_fuel(targets_for_apps, 2);
    if apps.len() == 0 {
        assert(apps.push(x).drop_first() =~~= Seq::<Seq<char>>::empty());
        assert(apps.push(x)[0] == x);
        assert(targets_for_apps(m, apps.push(x), action_pattern) =~~= targets_for_apps(
            m,
            apps,
            action_pattern,
        ) + targets_of_app(x, app_matched_actions(m, x, action_pattern)));
    } else {
        assert(apps.push(x).drop_first() =~~= apps.drop_first().push(x));
        lemma_targets_snoc(m, apps.drop_first(), action_pattern, x);
        assert(targets_for_apps(m, apps.push(x), action_pattern) =~~= targets_for_apps(
            m,
            apps,
            action_pattern,
        ) + targets_of_app(x, app_matched_actions(m, x, action_pattern)));
    }
}

proof fn lemma_warned_snoc(
    m: ConfigModel,
    apps: Seq<Seq<char>>,
    action_pattern: Seq<char>,
    x: Seq<char>,
)
    ensures
        warned_apps_spec(m, apps.push(x), action_pattern) == warned_apps_spec(
            m,
            apps,
            action_pattern,
        ) + (if app_matched_actions(m, x, action_pattern).len() == 0 {
            seq![x]
        } else {
            Seq::<Seq<char>>::empty()
        }),
    decreases apps.len(),
{
    reveal_with_fuel(warned_apps_spec, 2);
    if apps.len() == 0 {
        assert(apps.push(x).drop_first() =~~= Seq::<Seq<char>>::empty());
        assert(apps.push(x)[0] == x);
        assert(warned_apps_spec(m, apps.push(x), action_pattern) =~~= warned_apps_spec(
            m,
            apps,
            action_pattern,
        ) + (if app_matched_actions(m, x, action_pattern).len() == 0 {
            seq![x]
        } else {
            Seq::<Seq<char>>::empty()
        }));
    } else {
        assert(apps.push(x).drop_first() =~~= apps.drop_first().push(x));
        lemma_warned_snoc(m, apps.drop_first(), action_pattern, x);
        assert(warned_apps_spec(m, apps.push(x), action_pattern) =~~= warned_apps_spec(
            m,
            apps,
            action_pattern,
        ) + (if app_matched_actions(m, x, action_pattern).len() == 0 {
            seq![x]
        } else {
            Seq::<Seq<char>>::empty()
        }));
    }
}

/// Resolves the two patterns against the configuration.  Fails when no
/// application matches, or when no matched application contributes an
/// action; a matched application without matching actions is recorded and
/// does not abort the others.
pub fn resolve_targets(config: &Config, app_pattern: &str, action_pattern: &str) -> (r: Result<
    Resolution,
    ResolveError,
>)
    ensures
        match r {
            Ok(res) => resolve_spec(config@, app_pattern@, action_pattern@) == Ok::<
                ResolutionModel,
                ResolveError,
            >(res@),
            Err(e) => resolve_spec(config@, app_pattern@, action_pattern@) == Err::<
                ResolutionModel,
                ResolveError,
            >(e),
        },
{
    let app_names = config.app_names();
    let matched_apps = match_apps_fuzzy(&app_names, app_pattern);
    if matched_apps.len() == 0 {
        return Err(ResolveError::NoApplicationsMatched);
    }
    let ghost apps_m = matched_apps.deep_view();
    let mut targets: Vec<Target> = Vec::new();
    let mut warned: Vec<String> = Vec::new();
    let na = matched_apps.len();
    let mut ai: usize = 0;
    proof {
        assert(apps_m.take(0) =~~= Seq::<Seq<char>>::empty());
        assert(targets.deep_view() =~~= targets_for_apps(config@, apps_m.take(0), action_pattern@));
        assert(warned.deep_view() =~~= warned_apps_spec(config@, apps_m.take(0), action_pattern@));
    }
    while ai < na
        invariant
            na == matched_apps@.len(),
            ai <= na,
            apps_m == matched_apps.deep_view(),
            targets.deep_view() == targets_for_apps(config@, apps_m.take(ai as int), action_pattern@),
            warned.deep_view() == warned_apps_spec(config@, apps_m.take(ai as int), action_pattern@),
        decreases na - ai,
    {
        let app = &matched_apps[ai];
        let acts = config.get_actions(app.as_str());
        let matched_acts = match_actions_fuzzy(&acts, action_pattern);
        let ghost acts_m = app_matched_actions(config@, apps_m[ai as int], action_pattern@);
        proof {
            assert(matched_acts.deep_view() == acts_m);
        }
        if matched_acts.len() == 0 {
            let ghost wprev = warned@;
            warned.push(app.clone());
            proof {
                lemma_warned_snoc(config@, apps_m.take(ai as int), action_pattern@, apps_m[ai as int]);
                assert(apps_m.take(ai + 1) =~~= apps_m.take(ai as int).push(apps_m[ai as int]));
                assert(warned.deep_view() =~~= warned_apps_spec(
                    config@,
                    apps_m.take(ai + 1),
                    action_pattern@,
                ));
                lemma_targets_snoc(config@, apps_m.take(ai as int), action_pattern@, apps_m[ai as int]);
                assert(targets_of_app(apps_m[ai as int], acts_m) =~~= Seq::<TargetModel>::empty());
                assert(targets.deep_view() =~~= targets_for_apps(
                    config@,
                    apps_m.take(ai + 1),
                    action_pattern@,
                ));
            }
        } else {
            let ghost tprev = targets.deep_view();
            let nm = matched_acts.len();
            let mut j: usize = 0;
            proof {
                assert(acts_m.take(0) =~~= Seq::<Seq<char>>::empty());
                assert(targets_of_app(apps_m[ai as int], acts_m.take(0)) =~~= Seq::<
                    TargetModel,
                >::empty());
                assert(targets.deep_view() =~~= tprev + targets_of_app(
                    apps_m[ai as int],
                    acts_m.take(0),
                ));
            }
            while j < nm
                invariant
                    nm == matched_acts@.len(),
                    j <= nm,
                    acts_m == matched_acts.deep_view(),
                    ai < na,
                    na == matched_apps@.len(),
                    apps_m == matched_apps.deep_view(),
                    targets.deep_view() == tprev + targets_of_app(
                        apps_m[ai as int],
                        acts_m.take(j as int),
                    ),
                decreases nm - j,
            {
                let ghost prev2 = targets@;
                let ghost dprev = targets.deep_view();
                targets.push(
                    Target {
                        app: matched_apps[ai].clone(),
                        action: matched_acts[j].clone(),
                    },
                );
                proof {
                    let goal = tprev + targets_of_app(apps_m[ai as int], acts_m.take(j + 1));
                    assert(matched_apps@[ai as int]@ == apps_m[ai as int]);
                    assert(matched_acts@[j as int]@ == acts_m[j as int]);
                    assert(acts_m.len() == nm);
                    assert(acts_m.take(j as int).len() == j);
                    assert(acts_m.take(j + 1).len() == j + 1);
                    assert(dprev.len() == tprev.len() + j);
                    assert(prev2.len() == dprev.len());
                    assert(targets@.len() == prev2.len() + 1);
                    assert(goal.len() == tprev.len() + j + 1);
                    assert forall|k: int|
                        0 <= k < targets@.len() implies targets.deep_view()[k] == goal[k] by {
                        if k < prev2.len() {
                            assert(targets@[k] == prev2[k]);
                            assert(dprev[k] == prev2[k]@);
                            assert(dprev[k] == (tprev + targets_of_app(
                                apps_m[ai as int],
                                acts_m.take(j as int),
                            ))[k]);
                            if k >= tprev.len() {
                                assert(targets_of_app(apps_m[ai as int], acts_m.take(j as int))[k
                                    - tprev.len()] == (TargetModel {
                                    app: apps_m[ai as int],
                                    action: acts_m.take(j as int)[k - tprev.len()],
                                }));
                                assert(acts_m.take(j as int)[k - tprev.len()] == acts_m.take(
                                    j + 1,
                                )[k - tprev.len()]);
                            }
                        } else {
                            assert(k == prev2.len());
                            assert(targets@[k]@ == (TargetModel {
                                app: apps_m[ai as int],
                                action: acts_m[j as int],
                            }));
                            assert(goal[k] == targets_of_app(apps_m[ai as int], acts_m.take(j + 1))[
                                k - tprev.len()]);
                            assert(acts_m.take(j + 1)[k - tprev.len()] == acts_m[j as int]);
                        }
                    }
                    assert(targets.deep_view() =~~= goal);
                }
                j += 1;
            }
            proof {
                assert(acts_m.take(nm as int) =~~= acts_m);
                lemma_targets_snoc(config@, apps_m.take(ai as int), action_pattern@, apps_m[ai as int]);
                assert(apps_m.take(ai + 1) =~~= apps_m.take(ai as int).push(apps_m[ai as int]));
                assert(targets.deep_view() =~~= targets_for_apps(
                    config@,
                    apps_m.take(ai + 1),
                    action_pattern@,
                ));
                lemma_warned_snoc(config@, apps_m.take(ai as int), action_pattern@, apps_m[ai as int]);
                assert(warned.deep_view() =~~= warned_apps_spec(
                    config@,
                    apps_m.take(ai + 1),
                    action_pattern@,
                ));
            }
        }
        ai += 1;
    }
    proof {
        assert(apps_m.take(na as int) =~~= apps_m);
    }
    if targets.len() == 0 {
        return Err(ResolveError::NoActionsMatched);
    }
    let res = Resolution { matched_apps, targets, apps_without_actions: warned };
    proof {
        assert(resolve_spec(config@, app_pattern@, action_pattern@) == Ok::<
            ResolutionModel,
            ResolveError,
        >(res@));
    }
    Ok(res)
}

} // verus!
