//! The order in which a session is set up.

use crate::error::Error;
use crate::numeral::{law_numeral_reads_back, numeral, usize_denoted};
use crate::options::{
    bool_complaint, bool_denoted, law_truth_words_denote, pairs, parse_bool, parse_usize, quoted,
    usize_complaint,
};
use crate::text::{optional_view, same_text};
use crate::trace::{lemma_trace_option, trace_destination, tracing_requested};
use crate::utils::{level_of, map_opt_level, OptimizationLevel};
use ort::ep::ExecutionProviderDispatch;
use vstd::prelude::*;

verus! {

/// A step in setting up a session. Each is one call on the session builder, but for `Qnn`,
/// which registers QNN and hands its devices to the builder.
pub enum SessionStep {
    OptimizationLevel(OptimizationLevel),
    ExecutionProviders(Vec<ExecutionProviderDispatch>),
    VerboseLog,
    IntraThreads(usize),
    InterThreads(usize),
    IntraOpSpinning(bool),
    InterOpSpinning(bool),
    Qnn,
    CommitFromFile(String),
}

/// The mathematical content of a step.
pub enum SessionStepView {
    OptimizationLevel(OptimizationLevel),
    ExecutionProviders(Seq<ExecutionProviderDispatch>),
    VerboseLog,
    IntraThreads(usize),
    InterThreads(usize),
    IntraOpSpinning(bool),
    InterOpSpinning(bool),
    Qnn,
    CommitFromFile(Seq<char>),
}

impl View for SessionStep {
    type V = SessionStepView;

    open spec fn view(&self) -> SessionStepView {
        match *self {
            SessionStep::OptimizationLevel(level) => SessionStepView::OptimizationLevel(level),
            SessionStep::ExecutionProviders(eps) => SessionStepView::ExecutionProviders(eps@),
            SessionStep::VerboseLog => SessionStepView::VerboseLog,
            SessionStep::IntraThreads(n) => SessionStepView::IntraThreads(n),
            SessionStep::InterThreads(n) => SessionStepView::InterThreads(n),
            SessionStep::IntraOpSpinning(b) => SessionStepView::IntraOpSpinning(b),
            SessionStep::InterOpSpinning(b) => SessionStepView::InterOpSpinning(b),
            SessionStep::Qnn => SessionStepView::Qnn,
            SessionStep::CommitFromFile(path) => SessionStepView::CommitFromFile(path@),
        }
    }
}

/// The steps to take, in order, and the failure to report once they have been taken.
pub struct SessionPlan {
    pub steps: Vec<SessionStep>,
    pub failure: Option<Error>,
}

/// The content of each step.
pub open spec fn step_views(steps: Seq<SessionStep>) -> Seq<SessionStepView> {
    steps.map_values(|s: SessionStep| s@)
}

/// The message of an optional failure.
pub open spec fn failure_view(failure: Option<Error>) -> Option<Seq<char>> {
    match failure {
        Some(e) => Some(e@),
        None => None,
    }
}

/// A step with a number of threads, or the message for a value that is no number.
pub open spec fn count_step(
    key: Seq<char>,
    value: Seq<char>,
    step: spec_fn(usize) -> SessionStepView,
) -> Result<SessionStepView, Seq<char>> {
    match usize_denoted(value) {
        Some(n) => Ok(step(n)),
        None => Err(usize_complaint(key, quoted(value))),
    }
}

/// A step with a switch, or the message for a value that is no truth value.
pub open spec fn switch_step(
    key: Seq<char>,
    value: Seq<char>,
    step: spec_fn(bool) -> SessionStepView,
) -> Result<SessionStepView, Seq<char>> {
    match bool_denoted(value) {
        Some(b) => Ok(step(b)),
        None => Err(bool_complaint(key, quoted(value))),
    }
}

/// The step that a pair asks for, if its key is about the thread pools.
pub open spec fn option_step(key: Seq<char>, value: Seq<char>) -> Option<
    Result<SessionStepView, Seq<char>>,
> {
    if key == "intra_threads"@ {
        Some(count_step(key, value, |n: usize| SessionStepView::IntraThreads(n)))
    } else if key == "inter_threads"@ {
        Some(count_step(key, value, |n: usize| SessionStepView::InterThreads(n)))
    } else if key == "intra_op_spinning"@ {
        Some(switch_step(key, value, |b: bool| SessionStepView::IntraOpSpinning(b)))
    } else if key == "inter_op_spinning"@ {
        Some(switch_step(key, value, |b: bool| SessionStepView::InterOpSpinning(b)))
    } else {
        None
    }
}

/// The steps that the pairs ask for, in order, up to the first value that cannot be read,
/// and the message for that value.
pub open spec fn option_steps(opts: Seq<(Seq<char>, Seq<char>)>) -> (
    Seq<SessionStepView>,
    Option<Seq<char>>,
)
    decreases opts.len(),
{
    if opts.len() == 0 {
        (Seq::empty(), None)
    } else {
        let (done, failure) = option_steps(opts.drop_last());
        if failure is Some {
            (done, failure)
        } else {
            match option_step(opts.last().0, opts.last().1) {
                None => (done, None),
                Some(Ok(step)) => (done.push(step), None),
                Some(Err(message)) => (done, Some(message)),
            }
        }
    }
}

/// The steps before those that the options ask for.
pub open spec fn first_steps(
    level: OptimizationLevel,
    eps: Seq<ExecutionProviderDispatch>,
    tracing: bool,
) -> Seq<SessionStepView> {
    let steps = seq![
        SessionStepView::OptimizationLevel(level),
        SessionStepView::ExecutionProviders(eps),
    ];
    if tracing {
        steps.push(SessionStepView::VerboseLog)
    } else {
        steps
    }
}

/// The steps behind those that the options ask for.
pub open spec fn last_steps(use_qnn: bool, model_path: Seq<char>) -> Seq<SessionStepView> {
    if use_qnn {
        seq![SessionStepView::Qnn, SessionStepView::CommitFromFile(model_path)]
    } else {
        seq![SessionStepView::CommitFromFile(model_path)]
    }
}

/// The steps of a session and the failure behind them.
pub open spec fn session_steps(
    model_path: Seq<char>,
    eps: Seq<ExecutionProviderDispatch>,
    use_qnn: bool,
    opt: i32,
    opts: Seq<(Seq<char>, Seq<char>)>,
    env_trace: Option<Seq<char>>,
) -> (Seq<SessionStepView>, Option<Seq<char>>) {
    let first = first_steps(level_of(opt), eps, trace_destination(opts, env_trace) is Some);
    let (middle, failure) = option_steps(opts);
    if failure is Some {
        (first + middle, failure)
    } else {
        (first + middle + last_steps(use_qnn, model_path), None)
    }
}

/// The step that a pair asks for, if its key is about the thread pools.
pub fn read_option(key: &str, value: &str) -> (r: Result<Option<SessionStep>, Error>)
    ensures
        match r {
            Ok(None) => option_step(key@, value@) is None,
            Ok(Some(step)) => option_step(key@, value@) == Some(
                Ok::<SessionStepView, Seq<char>>(step@),
            ),
            Err(e) => option_step(key@, value@) == Some(Err::<SessionStepView, Seq<char>>(e@)),
        },
{
    if same_text(key, "intra_threads") {
        match parse_usize(key, value) {
            Ok(n) => Ok(Some(SessionStep::IntraThreads(n))),
            Err(e) => Err(e),
        }
    } else if same_text(key, "inter_threads") {
        match parse_usize(key, value) {
            Ok(n) => Ok(Some(SessionStep::InterThreads(n))),
            Err(e) => Err(e),
        }
    } else if same_text(key, "intra_op_spinning") {
        match parse_bool(key, value) {
            Ok(b) => Ok(Some(SessionStep::IntraOpSpinning(b))),
            Err(e) => Err(e),
        }
    } else if same_text(key, "inter_op_spinning") {
        match parse_bool(key, value) {
            Ok(b) => Ok(Some(SessionStep::InterOpSpinning(b))),
            Err(e) => Err(e),
        }
    } else {
        Ok(None)
    }
}

/// A value that cannot be read is what the whole list is refused for.
proof fn lemma_option_failure_stays(opts: Seq<(Seq<char>, Seq<char>)>, k: int)
    requires
        0 <= k <= opts.len(),
        option_steps(opts.take(k)).1 is Some,
    ensures
        option_steps(opts) == option_steps(opts.take(k)),
    decreases opts.len() - k,
{
    if k == opts.len() {
        assert(opts.take(k) == opts);
    } else {
        assert(opts.take(k + 1).drop_last() == opts.take(k));
        lemma_option_failure_stays(opts, k + 1);
    }
}

/// Plans a session on the model in a file.
///
/// `env_trace` is the value of `ORTEX_TRACE`, read when the variables that the options set
/// have been set.
pub fn init(
    model_path: String,
    eps: Vec<ExecutionProviderDispatch>,
    use_qnn: bool,
    opt: i32,
    qnn_opts: &[(String, String)],
    env_trace: &Option<String>,
) -> (r: SessionPlan)
    ensures
        (step_views(r.steps@), failure_view(r.failure)) == session_steps(
            model_path@,
            eps@,
            use_qnn,
            opt,
            pairs(qnn_opts@),
            optional_view(*env_trace),
        ),
{
    let ghost opts = pairs(qnn_opts@);
    let ghost tracing = trace_destination(opts, optional_view(*env_trace)) is Some;
    let ghost first = first_steps(level_of(opt), eps@, tracing);
    let mut steps: Vec<SessionStep> = Vec::new();
    steps.push(SessionStep::OptimizationLevel(map_opt_level(opt)));
    steps.push(SessionStep::ExecutionProviders(eps));
    if tracing_requested(qnn_opts, env_trace) {
        steps.push(SessionStep::VerboseLog);
    }
    assert(step_views(steps@) == first);
    let mut i: usize = 0;
    assert(opts.take(0) == Seq::<(Seq<char>, Seq<char>)>::empty());
    assert(first + Seq::<SessionStepView>::empty() == first);
    while i < qnn_opts.len()
        invariant
            i <= qnn_opts@.len(),
            opts == pairs(qnn_opts@),
            option_steps(opts.take(i as int)).1 is None,
            step_views(steps@) == first + option_steps(opts.take(i as int)).0,
            first == first_steps(level_of(opt), eps@, tracing),
            tracing == (trace_destination(opts, optional_view(*env_trace)) is Some),
        decreases qnn_opts@.len() - i,
    {
        let ghost before = step_views(steps@);
        assert(opts.take(i + 1).drop_last() == opts.take(i as int));
        assert(opts.take(i + 1).last() == opts[i as int]);
        match read_option(qnn_opts[i].0.as_str(), qnn_opts[i].1.as_str()) {
            Ok(Some(step)) => {
                steps.push(step);
                assert(step_views(steps@) == before.push(step@));
                assert(before.push(step@) == first + option_steps(opts.take(i as int)).0.push(
                    step@,
                ));
            },
            Ok(None) => {},
            Err(e) => {
                proof {
                    lemma_option_failure_stays(opts, i + 1);
                }
                return SessionPlan { steps, failure: Some(e) };
            },
        }
        i = i + 1;
    }
    assert(opts.take(opts.len() as int) == opts);
    let ghost before = step_views(steps@);
    if use_qnn {
        steps.push(SessionStep::Qnn);
    }
    steps.push(SessionStep::CommitFromFile(model_path));
    assert(step_views(steps@) == before + last_steps(use_qnn, model_path@));
    SessionPlan { steps, failure: None }
}

/// Steps that options ask for are about the thread pools.
proof fn lemma_option_steps_kind(opts: Seq<(Seq<char>, Seq<char>)>)
    ensures
        forall|i: int|
            0 <= i < option_steps(opts).0.len() ==> {
                let step = #[trigger] option_steps(opts).0[i];
                step is IntraThreads || step is InterThreads || step is IntraOpSpinning
                    || step is InterOpSpinning
            },
    decreases opts.len(),
{
    if opts.len() > 0 {
        let front = option_steps(opts.drop_last()).0;
        lemma_option_steps_kind(opts.drop_last());
        assert forall|i: int| 0 <= i < option_steps(opts).0.len() implies ({
            let step = #[trigger] option_steps(opts).0[i];
            step is IntraThreads || step is InterThreads || step is IntraOpSpinning
                || step is InterOpSpinning
        }) by {
            if i < front.len() {
                assert(option_steps(opts).0[i] == front[i]);
            }
        }
    }
}

/// The model is loaded in the last step, and in no other; where an option cannot be read it
/// is not loaded at all, and QNN is not set up.
pub proof fn law_model_is_loaded_last(
    model_path: Seq<char>,
    eps: Seq<ExecutionProviderDispatch>,
    use_qnn: bool,
    opt: i32,
    opts: Seq<(Seq<char>, Seq<char>)>,
    env_trace: Option<Seq<char>>,
)
    ensures
        ({
            let (steps, failure) = session_steps(model_path, eps, use_qnn, opt, opts, env_trace);
            &&& failure is None ==> steps.last() == SessionStepView::CommitFromFile(model_path)
            &&& failure is None ==> forall|i: int|
                0 <= i < steps.len() - 1 ==> !(#[trigger] steps[i] is CommitFromFile)
            &&& failure is Some ==> forall|i: int|
                0 <= i < steps.len() ==> !(#[trigger] steps[i] is CommitFromFile) && !(steps[i] is Qnn)
        }),
{
    lemma_option_steps_kind(opts);
}

/// QNN is set up exactly where it is asked for and the options can be read, right before the
/// model is loaded.
pub proof fn law_qnn_is_set_up_when_asked(
    model_path: Seq<char>,
    eps: Seq<ExecutionProviderDispatch>,
    use_qnn: bool,
    opt: i32,
    opts: Seq<(Seq<char>, Seq<char>)>,
    env_trace: Option<Seq<char>>,
)
    ensures
        ({
            let (steps, failure) = session_steps(model_path, eps, use_qnn, opt, opts, env_trace);
            &&& steps.contains(SessionStepView::Qnn) <==> use_qnn && failure is None
            &&& use_qnn && failure is None ==> steps[steps.len() - 2] is Qnn
        }),
{
    lemma_option_steps_kind(opts);
    let (steps, failure) = session_steps(model_path, eps, use_qnn, opt, opts, env_trace);
    if use_qnn && failure is None {
        assert(steps[steps.len() - 2] == SessionStepView::Qnn);
    }
}

/// The session logs verbosely exactly where a trace is asked for.
pub proof fn law_trace_makes_session_verbose(
    model_path: Seq<char>,
    eps: Seq<ExecutionProviderDispatch>,
    use_qnn: bool,
    opt: i32,
    opts: Seq<(Seq<char>, Seq<char>)>,
    env_trace: Option<Seq<char>>,
)
    ensures
        session_steps(model_path, eps, use_qnn, opt, opts, env_trace).0.contains(
            SessionStepView::VerboseLog,
        ) <==> trace_destination(opts, env_trace) is Some,
{
    lemma_option_steps_kind(opts);
    let steps = session_steps(model_path, eps, use_qnn, opt, opts, env_trace).0;
    if trace_destination(opts, env_trace) is Some {
        assert(steps[2] == SessionStepView::VerboseLog);
    }
}

/// Setting up a session fails for its options exactly where one of those about the thread
/// pools cannot be read.
pub proof fn law_fails_for_unreadable_options(opts: Seq<(Seq<char>, Seq<char>)>)
    ensures
        option_steps(opts).1 is Some <==> exists|i: int|
            0 <= i < opts.len() && option_step((#[trigger] opts[i]).0, opts[i].1) matches Some(
                Err(_),
            ),
    decreases opts.len(),
{
    if opts.len() > 0 {
        let front = opts.drop_last();
        law_fails_for_unreadable_options(front);
        assert forall|i: int| 0 <= i < front.len() implies #[trigger] front[i] == opts[i] by {}
        assert(opts.last() == opts[opts.len() - 1]);
        if option_steps(front).1 is Some {
            let i = choose|i: int|
                0 <= i < front.len() && option_step((#[trigger] front[i]).0, front[i].1) matches
                    Some(Err(_));
            assert(opts[i] == front[i]);
        }
        if exists|i: int|
            0 <= i < opts.len() && option_step((#[trigger] opts[i]).0, opts[i].1) matches Some(
                Err(_),
            ) {
            let i = choose|i: int|
                0 <= i < opts.len() && option_step((#[trigger] opts[i]).0, opts[i].1) matches Some(
                    Err(_),
                );
            if i < front.len() {
                assert(front[i] == opts[i]);
            }
        }
    }
}

/// A pair that is not about the thread pools changes nothing in the steps of the others.
pub proof fn law_other_options_make_no_step(
    front: Seq<(Seq<char>, Seq<char>)>,
    other: (Seq<char>, Seq<char>),
    back: Seq<(Seq<char>, Seq<char>)>,
)
    requires
        option_step(other.0, other.1) is None,
    ensures
        option_steps(front.push(other) + back) == option_steps(front + back),
    decreases back.len(),
{
    if back.len() == 0 {
        assert(front.push(other) + back == front.push(other));
        assert(front + back == front);
        assert(front.push(other).drop_last() == front);
    } else {
        law_other_options_make_no_step(front, other, back.drop_last());
        assert((front.push(other) + back).drop_last() == front.push(other) + back.drop_last());
        assert((front + back).drop_last() == front + back.drop_last());
    }
}

/// The keys about the thread pools are distinct.
proof fn lemma_pool_keys_differ()
    ensures
        "intra_threads"@ != "inter_threads"@,
        "intra_threads"@ != "intra_op_spinning"@,
        "intra_threads"@ != "inter_op_spinning"@,
        "inter_threads"@ != "intra_op_spinning"@,
        "inter_threads"@ != "inter_op_spinning"@,
        "intra_op_spinning"@ != "inter_op_spinning"@,
{
    reveal_strlit("intra_threads");
    reveal_strlit("inter_threads");
    reveal_strlit("intra_op_spinning");
    reveal_strlit("inter_op_spinning");
    assert("intra_threads"@[3] == 'r' && "inter_threads"@[3] == 'e');
    assert("intra_op_spinning"@[3] == 'r' && "inter_op_spinning"@[3] == 'e');
    assert("intra_threads"@.len() == 13 && "intra_op_spinning"@.len() == 17);
    assert("inter_threads"@.len() == 13 && "inter_op_spinning"@.len() == 17);
}

/// A spinning option switches the spinning of the pool that it names on for the words of
/// truth and off for the words of falsehood, and is refused for every other value.
pub proof fn law_spinning_is_switched_as_told(
    key: &str,
    value: &str,
    r: Result<Option<SessionStep>, Error>,
)
    requires
        call_ensures(read_option, (key, value), r),
    ensures
        key@ == "intra_op_spinning"@ ==> {
            &&& r == Ok::<Option<SessionStep>, Error>(Some(SessionStep::IntraOpSpinning(true)))
                <==> seq!["1"@, "true"@, "yes"@, "on"@].contains(value@)
            &&& r == Ok::<Option<SessionStep>, Error>(Some(SessionStep::IntraOpSpinning(false)))
                <==> seq!["0"@, "false"@, "no"@, "off"@].contains(value@)
            &&& r is Ok ==> seq!["1"@, "true"@, "yes"@, "on"@].contains(value@) || seq![
                "0"@,
                "false"@,
                "no"@,
                "off"@,
            ].contains(value@)
            &&& r matches Err(e) ==> e.message@ == key@ + " must be a boolean, got "@ + quoted(
                value@,
            )
        },
        key@ == "inter_op_spinning"@ ==> {
            &&& r == Ok::<Option<SessionStep>, Error>(Some(SessionStep::InterOpSpinning(true)))
                <==> seq!["1"@, "true"@, "yes"@, "on"@].contains(value@)
            &&& r == Ok::<Option<SessionStep>, Error>(Some(SessionStep::InterOpSpinning(false)))
                <==> seq!["0"@, "false"@, "no"@, "off"@].contains(value@)
            &&& r is Ok ==> seq!["1"@, "true"@, "yes"@, "on"@].contains(value@) || seq![
                "0"@,
                "false"@,
                "no"@,
                "off"@,
            ].contains(value@)
            &&& r matches Err(e) ==> e.message@ == key@ + " must be a boolean, got "@ + quoted(
                value@,
            )
        },
{
    lemma_pool_keys_differ();
    law_truth_words_denote(value@);
}

/// A thread option gives the pool that it names the number of threads that it is written
/// with, and is refused where its value is no number.
pub proof fn law_threads_are_counted_as_told(
    key: &str,
    value: &str,
    n: usize,
    r: Result<Option<SessionStep>, Error>,
)
    requires
        call_ensures(read_option, (key, value), r),
    ensures
        key@ == "intra_threads"@ ==> {
            &&& value@ == numeral(n as nat) ==> r == Ok::<Option<SessionStep>, Error>(
                Some(SessionStep::IntraThreads(n)),
            )
            &&& r == Ok::<Option<SessionStep>, Error>(Some(SessionStep::IntraThreads(n)))
                <==> usize_denoted(value@) == Some(n)
            &&& r is Ok <==> usize_denoted(value@) is Some
            &&& r matches Err(e) ==> e.message@ == key@
                + " must be a non-negative integer, got "@ + quoted(value@)
        },
        key@ == "inter_threads"@ ==> {
            &&& value@ == numeral(n as nat) ==> r == Ok::<Option<SessionStep>, Error>(
                Some(SessionStep::InterThreads(n)),
            )
            &&& r == Ok::<Option<SessionStep>, Error>(Some(SessionStep::InterThreads(n)))
                <==> usize_denoted(value@) == Some(n)
            &&& r is Ok <==> usize_denoted(value@) is Some
            &&& r matches Err(e) ==> e.message@ == key@
                + " must be a non-negative integer, got "@ + quoted(value@)
        },
{
    lemma_pool_keys_differ();
    law_numeral_reads_back(n);
}

/// Four keys are about the thread pools; the others ask for no step and are never refused.
pub proof fn law_other_keys_ask_for_nothing(
    key: &str,
    value: &str,
    r: Result<Option<SessionStep>, Error>,
)
    requires
        call_ensures(read_option, (key, value), r),
    ensures
        r == Ok::<Option<SessionStep>, Error>(None) <==> !seq![
            "intra_threads"@,
            "inter_threads"@,
            "intra_op_spinning"@,
            "inter_op_spinning"@,
        ].contains(key@),
{
    let all = seq![
        "intra_threads"@,
        "inter_threads"@,
        "intra_op_spinning"@,
        "inter_op_spinning"@,
    ];
    assert(all[0] == "intra_threads"@ && all[1] == "inter_threads"@);
    assert(all[2] == "intra_op_spinning"@ && all[3] == "inter_op_spinning"@);
}

/// The content of a step is the step's own.
pub proof fn law_steps_are_seen_as_they_are(step: SessionStep)
    ensures
        match step {
            SessionStep::OptimizationLevel(level) => step@ == SessionStepView::OptimizationLevel(
                level,
            ),
            SessionStep::ExecutionProviders(eps) => step@ == SessionStepView::ExecutionProviders(
                eps@,
            ),
            SessionStep::VerboseLog => step@ is VerboseLog,
            SessionStep::IntraThreads(n) => step@ == SessionStepView::IntraThreads(n),
            SessionStep::InterThreads(n) => step@ == SessionStepView::InterThreads(n),
            SessionStep::IntraOpSpinning(b) => step@ == SessionStepView::IntraOpSpinning(b),
            SessionStep::InterOpSpinning(b) => step@ == SessionStepView::InterOpSpinning(b),
            SessionStep::Qnn => step@ is Qnn,
            SessionStep::CommitFromFile(path) => step@ == SessionStepView::CommitFromFile(path@),
        },
{
}

/// The steps of a list of options are those of its front and then those of its back; where the
/// front cannot be read, the back is not looked at.
pub proof fn law_options_are_read_in_order(
    front: Seq<(Seq<char>, Seq<char>)>,
    back: Seq<(Seq<char>, Seq<char>)>,
)
    ensures
        option_steps(front).1 is Some ==> option_steps(front + back) == option_steps(front),
        option_steps(front).1 is None ==> option_steps(front + back) == (
            option_steps(front).0 + option_steps(back).0,
            option_steps(back).1,
        ),
    decreases back.len(),
{
    if back.len() == 0 {
        assert(front + back == front);
        assert(option_steps(front).0 + option_steps(back).0 == option_steps(front).0);
    } else {
        let rest = back.drop_last();
        law_options_are_read_in_order(front, rest);
        assert((front + back).drop_last() == front + rest);
        assert((front + back).last() == back.last());
        if option_steps(front).1 is None {
            let done = option_steps(front).0;
            let more = option_steps(rest).0;
            if option_steps(rest).1 is None {
                if let Some(Ok(step)) = option_step(back.last().0, back.last().1) {
                    assert((done + more).push(step) == done + more.push(step));
                }
            }
        }
    }
}

/// An option on its own makes the step that it asks for, is refused, or makes no step.
pub proof fn law_one_option_makes_its_step(key: Seq<char>, value: Seq<char>)
    ensures
        option_steps(Seq::empty()) == (Seq::<SessionStepView>::empty(), None::<Seq<char>>),
        match option_step(key, value) {
            None => option_steps(seq![(key, value)]) == (
                Seq::<SessionStepView>::empty(),
                None::<Seq<char>>,
            ),
            Some(Ok(step)) => option_steps(seq![(key, value)]) == (seq![step], None::<Seq<char>>),
            Some(Err(message)) => option_steps(seq![(key, value)]) == (
                Seq::<SessionStepView>::empty(),
                Some(message),
            ),
        },
{
    let one = seq![(key, value)];
    assert(one.drop_last() == Seq::<(Seq<char>, Seq<char>)>::empty());
    assert(one.last() == (key, value));
    reveal_with_fuel(option_steps, 2);
}

/// A session is set up in this order: the optimization level with the given number, the given
/// execution providers, verbose logging where a trace is asked for, the steps of the options,
/// and, unless an option is refused, QNN where it is asked for and the model.
pub proof fn law_session_is_set_up_in_order(
    model_path: String,
    eps: Vec<ExecutionProviderDispatch>,
    use_qnn: bool,
    opt: i32,
    qnn_opts: &[(String, String)],
    env_trace: &Option<String>,
    r: SessionPlan,
)
    requires
        call_ensures(init, (model_path, eps, use_qnn, opt, qnn_opts, env_trace), r),
    ensures
        ({
            let steps = r.steps@;
            let asked = option_steps(pairs(qnn_opts@));
            let tracing = env_trace is Some || exists|i: int|
                0 <= i < qnn_opts@.len() && (#[trigger] qnn_opts@[i]).0@ == "trace_path"@;
            let first: int = if tracing {
                3
            } else {
                2
            };
            &&& steps[0] is OptimizationLevel
            &&& steps[0] == SessionStep::OptimizationLevel(OptimizationLevel::Level1) <==> opt == 1
            &&& steps[0] == SessionStep::OptimizationLevel(OptimizationLevel::Level2) <==> opt == 2
            &&& steps[0] == SessionStep::OptimizationLevel(OptimizationLevel::Level3) <==> opt == 3
            &&& steps[1] is ExecutionProviders
            &&& steps[1]->ExecutionProviders_0@ == eps@
            &&& tracing ==> steps[2] is VerboseLog
            &&& forall|k: int|
                first <= k < first + asked.0.len() ==> (#[trigger] steps[k])@ == asked.0[k - first]
            &&& match asked.1 {
                Some(message) => {
                    &&& steps.len() == first + asked.0.len()
                    &&& r.failure is Some
                    &&& r.failure->0.message@ == message
                },
                None => {
                    &&& steps.len() == first + asked.0.len() + (if use_qnn {
                        2int
                    } else {
                        1
                    })
                    &&& r.failure is None
                    &&& use_qnn ==> steps[steps.len() - 2] is Qnn
                    &&& steps[steps.len() - 1] is CommitFromFile
                    &&& steps[steps.len() - 1]->CommitFromFile_0@ == model_path@
                },
            }
        }),
{
    lemma_trace_option(qnn_opts@);
    let opts = pairs(qnn_opts@);
    let steps = r.steps@;
    let seen = step_views(steps);
    let asked = option_steps(opts);
    let tracing = trace_destination(opts, optional_view(*env_trace)) is Some;
    let first: int = if tracing {
        3
    } else {
        2
    };
    assert(seen.len() == steps.len());
    assert forall|k: int| 0 <= k < steps.len() implies #[trigger] seen[k] == steps[k]@ by {}
    assert(seen[0] == steps[0]@ && seen[1] == steps[1]@);
    if tracing {
        assert(seen[2] == steps[2]@);
    }
    assert forall|k: int| first <= k < first + asked.0.len() implies (#[trigger] steps[k])@
        == asked.0[k - first] by {
        assert(seen[k] == steps[k]@);
    }
    if asked.1 is None {
        assert(seen[steps.len() - 1] == steps[steps.len() - 1]@);
        if use_qnn {
            assert(seen[steps.len() - 2] == steps[steps.len() - 2]@);
        }
    }
}

/// In a session that can be set up, every option about the thread pools is obeyed by a step
/// that does what its value says.
pub proof fn law_every_pool_option_is_obeyed(
    model_path: String,
    eps: Vec<ExecutionProviderDispatch>,
    use_qnn: bool,
    opt: i32,
    qnn_opts: &[(String, String)],
    env_trace: &Option<String>,
    r: SessionPlan,
    i: int,
)
    requires
        call_ensures(init, (model_path, eps, use_qnn, opt, qnn_opts, env_trace), r),
        r.failure is None,
        0 <= i < qnn_opts@.len(),
    ensures
        ({
            let key = qnn_opts@[i].0@;
            let value = qnn_opts@[i].1@;
            &&& key == "intra_op_spinning"@ ==> r.steps@.contains(
                SessionStep::IntraOpSpinning(
                    seq!["1"@, "true"@, "yes"@, "on"@].contains(value),
                ),
            )
            &&& key == "inter_op_spinning"@ ==> r.steps@.contains(
                SessionStep::InterOpSpinning(
                    seq!["1"@, "true"@, "yes"@, "on"@].contains(value),
                ),
            )
            &&& key == "intra_threads"@ ==> usize_denoted(value) is Some && r.steps@.contains(
                SessionStep::IntraThreads(usize_denoted(value)->0),
            )
            &&& key == "inter_threads"@ ==> usize_denoted(value) is Some && r.steps@.contains(
                SessionStep::InterThreads(usize_denoted(value)->0),
            )
        }),
{
    law_session_is_set_up_in_order(model_path, eps, use_qnn, opt, qnn_opts, env_trace, r);
    lemma_pool_keys_differ();
    let all = pairs(qnn_opts@);
    let key = all[i].0;
    let value = all[i].1;
    let front = all.take(i);
    let back = all.skip(i + 1);
    law_truth_words_denote(value);
    law_options_are_read_in_order(front, seq![all[i]] + back);
    law_options_are_read_in_order(seq![all[i]], back);
    law_one_option_makes_its_step(key, value);
    assert(front + (seq![all[i]] + back) == all);
    assert(seq![(key, value)] == seq![all[i]]);
    if let Some(Ok(step)) = option_step(key, value) {
        let k = option_steps(front).0.len() as int;
        let tracing = env_trace is Some || exists|i: int|
            0 <= i < qnn_opts@.len() && (#[trigger] qnn_opts@[i]).0@ == "trace_path"@;
        let first: int = if tracing {
            3
        } else {
            2
        };
        assert(option_steps(all).0[k] == step);
        assert(r.steps@[first + k]@ == step);
    }
}

} // verus!
