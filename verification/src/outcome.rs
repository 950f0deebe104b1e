//! Execution outcomes and their aggregation.  Each dispatched target ends in
//! an outcome; the aggregator counts successes and failures, lists the
//! failed targets in dispatch order, and decides the process exit code.

use vstd::prelude::*;

verus! {

/// The outcome of one dispatched target: success iff the subprocess exit
/// code was exactly 0; the raw exit code when the operating system reported
/// one.
#[derive(Debug, Clone)]
pub struct ExecutionOutcome {
    pub app: String,
    pub action: String,
    pub success: bool,
    pub exit_code: Option<i32>,
}

/// Mathematical model of an outcome.
#[verifier::ext_equal]
pub struct OutcomeModel {
    pub app: Seq<char>,
    pub action: Seq<char>,
    pub success: bool,
    pub exit_code: Option<i32>,
}

impl View for ExecutionOutcome {
    type V = OutcomeModel;

    open spec fn view(&self) -> OutcomeModel {
        OutcomeModel {
            app: self.app@,
            action: self.action@,
            success: self.success,
            exit_code: self.exit_code,
        }
    }
}

impl DeepView for ExecutionOutcome {
    type V = OutcomeModel;

    open spec fn deep_view(&self) -> OutcomeModel {
        self@
    }
}

impl ExecutionOutcome {
    /// The outcome of a subprocess whose status the system reported:
    /// a missing exit code (signal termination) counts as exit code 1.
    pub fn from_status(app: String, action: String, code: Option<i32>) -> (r: ExecutionOutcome)
        ensures
            r@ == (OutcomeModel {
                app: app@,
                action: action@,
                success: code == Some(0i32),
                exit_code: match code {
                    Some(c) => Some(c),
                    None => Some(1i32),
                },
            }),
    {
        match code {
            Some(c) => ExecutionOutcome { app, action, success: c == 0, exit_code: Some(c) },
            None => ExecutionOutcome { app, action, success: false, exit_code: Some(1) },
        }
    }

    /// The outcome of a target whose task could not be completed at all:
    /// recorded as a failure with no exit code.
    pub fn task_failure(app: String, action: String) -> (r: ExecutionOutcome)
        ensures
            r@ == (OutcomeModel { app: app@, action: action@, success: false, exit_code: None }),
    {
        ExecutionOutcome { app, action, success: false, exit_code: None }
    }
}

/// The label `app - action` that names a target in the summary.
pub open spec fn label_spec(app: Seq<char>, action: Seq<char>) -> Seq<char> {
    app + " - "@ + action
}

/// Builds the `app - action` label of a target.
pub fn target_label(app: &str, action: &str) -> (r: String)
    ensures
        r@ == label_spec(app@, action@),
{
    let mut s = app.to_owned();
    s.append(" - ");
    s.append(action);
    s
}

/// How many outcomes succeeded.
pub open spec fn count_successes(os: Seq<OutcomeModel>) -> int
    decreases os.len(),
{
    if os.len() == 0 {
        0
    } else {
        (if os[0].success {
            1int
        } else {
            0int
        }) + count_successes(os.drop_first())
    }
}

/// The labels of the failed outcomes, in dispatch order.
pub open spec fn failed_labels_spec(os: Seq<OutcomeModel>) -> Seq<Seq<char>>
    decreases os.len(),
{
    if os.len() == 0 {
        Seq::empty()
    } else {
        (if !os[0].success {
            seq![label_spec(os[0].app, os[0].action)]
        } else {
            Seq::<Seq<char>>::empty()
        }) + failed_labels_spec(os.drop_first())
    }
}

proof fn lemma_count_snoc(os: Seq<OutcomeModel>, x: OutcomeModel)
    ensures
        count_successes(os.push(x)) == count_successes(os) + (if x.success {
            1int
        } else {
            0int
        }),
    decreases os.len(),
{
    reveal_with_fuel(count_successes, 2);
    if os.len() == 0 {
        assert(os.push(x).drop_first() =~~= Seq::<OutcomeModel>::empty());
        assert(os.push(x)[0] == x);
    } else {
        assert(os.push(x).drop_first() =~~= os.drop_first().push(x));
        lemma_count_snoc(os.drop_first(), x);
    }
}

proof fn lemma_labels_snoc(os: Seq<OutcomeModel>, x: OutcomeModel)
    ensures
        failed_labels_spec(os.push(x)) == failed_labels_spec(os) + (if !x.success {
            seq![label_spec(x.app, x.action)]
        } else {
            Seq::<Seq<char>>::empty()
        }),
    decreases os.len(),
{
    reveal_with_fuel(failed_labels_spec, 2);
    if os.len() == 0 {
        assert(os.push(x).drop_first() =~~= Seq::<OutcomeModel>::empty());
        assert(os.push(x)[0] == x);
        assert(failed_labels_spec(os.push(x)) =~~= failed_labels_spec(os) + (if !x.success {
            seq![label_spec(x.app, x.action)]
        } else {
            Seq::<Seq<char>>::empty()
        }));
    } else {
        assert(os.push(x).drop_first() =~~= os.drop_first().push(x));
        lemma_labels_snoc(os.drop_first(), x);
        assert(failed_labels_spec(os.push(x)) =~~= failed_labels_spec(os) + (if !x.success {
            seq![label_spec(x.app, x.action)]
        } else {
            Seq::<Seq<char>>::empty()
        }));
    }
}

proof fn lemma_count_bounds(os: Seq<OutcomeModel>)
    ensures
        0 <= count_successes(os) <= os.len(),
    decreases os.len(),
{
    if os.len() > 0 {
        lemma_count_bounds(os.drop_first());
    }
}

/// The aggregate of one dispatch round: totals and the failed targets'
/// labels in dispatch order.
#[derive(Debug, Clone)]
pub struct Summary {
    pub executed: usize,
    pub succeeded: usize,
    pub failed: usize,
    pub failed_labels: Vec<String>,
}

impl Summary {
    /// The process exit code the round ends with: 0 only when nothing
    /// failed.
    pub fn exit_code(&self) -> (c: i32)
        ensures
            c == (if self.failed == 0 {
                0i32
            } else {
                1i32
            }),
    {
        if self.failed == 0 {
            0
        } else {
            1
        }
    }

    /// Whether the multi-target summary banner is printed: only when more
    /// than one target ran.
    pub fn is_multi(&self) -> (b: bool)
        ensures
            b == (self.executed > 1),
    {
        self.executed > 1
    }
}

/// Counts successes and failures and collects the labels of the failed
/// targets, preserving dispatch order.
pub fn aggregate_outcomes(outcomes: &Vec<ExecutionOutcome>) -> (s: Summary)
    ensures
        s.executed == outcomes@.len(),
        s.succeeded == count_successes(outcomes.deep_view()),
        s.failed == outcomes@.len() - count_successes(outcomes.deep_view()),
        s.failed_labels.deep_view() == failed_labels_spec(outcomes.deep_view()),
{
    let n = outcomes.len();
    let mut succeeded: usize = 0;
    let mut labels: Vec<String> = Vec::new();
    let mut i: usize = 0;
    proof {
        assert(outcomes.deep_view().take(0) =~~= Seq::<OutcomeModel>::empty());
        assert(labels.deep_view() =~~= failed_labels_spec(outcomes.deep_view().take(0)));
    }
    while i < n
        invariant
            n == outcomes@.len(),
            i <= n,
            succeeded == count_successes(outcomes.deep_view().take(i as int)),
            labels.deep_view() == failed_labels_spec(outcomes.deep_view().take(i as int)),
        decreases n - i,
    {
        let o = &outcomes[i];
        proof {
            lemma_count_snoc(outcomes.deep_view().take(i as int), outcomes.deep_view()[i as int]);
            lemma_labels_snoc(outcomes.deep_view().take(i as int), outcomes.deep_view()[i as int]);
            lemma_count_bounds(outcomes.deep_view().take(i as int));
            assert(outcomes.deep_view().take(i + 1) =~~= outcomes.deep_view().take(i as int).push(
                outcomes.deep_view()[i as int],
            ));
        }
        if o.success {
            succeeded += 1;
        } else {
            let ghost lprev = labels@;
            let ghost ldprev = labels.deep_view();
            let lab = target_label(o.app.as_str(), o.action.as_str());
            labels.push(lab);
            proof {
                let goal = failed_labels_spec(outcomes.deep_view().take(i + 1));
                assert forall|k: int|
                    0 <= k < labels@.len() implies labels.deep_view()[k] == goal[k] by {
                    if k < lprev.len() {
                        assert(labels@[k] == lprev[k]);
                        assert(ldprev[k] == lprev[k]@);
                    } else {
                        assert(labels@[k]@ == label_spec(
                            outcomes.deep_view()[i as int].app,
                            outcomes.deep_view()[i as int].action,
                        ));
                    }
                }
                assert(labels.deep_view() =~~= goal);
            }
        }
        i += 1;
    }
    proof {
        assert(outcomes.deep_view().take(n as int) =~~= outcomes.deep_view());
        lemma_count_bounds(outcomes.deep_view());
    }
    let failed = n - succeeded;
    Summary { executed: n, succeeded, failed, failed_labels: labels }
}

} // verus!
