//! The start and the end of the service: when it is ready, why it stops, and
//! what went wrong on the way.

use vstd::prelude::*;

use crate::text;

verus! {

/// How a task of the service ended.
#[derive(Debug, PartialEq, Eq)]
pub enum TaskEnd {
    Completed,
    /// It gave up with an error.
    Failed { error: String },
    /// It did not come to an end of its own.
    Crashed { error: String },
}

pub enum TaskEndView {
    Completed,
    Failed { error: Seq<char> },
    Crashed { error: Seq<char> },
}

impl View for TaskEnd {
    type V = TaskEndView;

    open spec fn view(&self) -> TaskEndView {
        match self {
            TaskEnd::Completed => TaskEndView::Completed,
            TaskEnd::Failed { error } => TaskEndView::Failed { error: error@ },
            TaskEnd::Crashed { error } => TaskEndView::Crashed { error: error@ },
        }
    }
}

/// Why the service stops.
#[derive(Debug, PartialEq, Eq)]
pub enum StopTrigger {
    Signal,
    StartupFailure { error: String },
    Honeypot { end: TaskEnd },
    Admin { end: TaskEnd },
}

pub enum StopTriggerView {
    Signal,
    StartupFailure { error: Seq<char> },
    Honeypot { end: TaskEndView },
    Admin { end: TaskEndView },
}

impl View for StopTrigger {
    type V = StopTriggerView;

    open spec fn view(&self) -> StopTriggerView {
        match self {
            StopTrigger::Signal => StopTriggerView::Signal,
            StopTrigger::StartupFailure { error } => StopTriggerView::StartupFailure {
                error: error@,
            },
            StopTrigger::Honeypot { end } => StopTriggerView::Honeypot { end: end@ },
            StopTrigger::Admin { end } => StopTriggerView::Admin { end: end@ },
        }
    }
}

// ---------------------------------------------------------------------------
// Readiness

/// A listener that stopped before it was ready.
#[derive(Clone, Copy, Debug, PartialEq, Eq, Structural)]
pub enum ReadinessError {
    Honeypot,
    Admin,
}

impl ReadinessError {
    pub open spec fn message(self) -> Seq<char> {
        match self {
            ReadinessError::Honeypot => "honeypot listener stopped before reporting readiness"@,
            ReadinessError::Admin => "admin API stopped before reporting readiness"@,
        }
    }

    /// The message of the error.
    pub fn to_string(&self) -> (r: String)
        ensures
            r@ == self.message(),
    {
        let message = match self {
            ReadinessError::Honeypot => "honeypot listener stopped before reporting readiness",
            ReadinessError::Admin => "admin API stopped before reporting readiness",
        };
        message.to_string()
    }
}

/// Whether all listeners that are needed have reported. The administration has
/// a listener of its own only where it is `Some`.
pub open spec fn readiness_of(honeypot: bool, admin: Option<bool>) -> Result<(), ReadinessError> {
    if !honeypot {
        Err(ReadinessError::Honeypot)
    } else if admin == Some(false) {
        Err(ReadinessError::Admin)
    } else {
        Ok(())
    }
}

pub fn readiness(honeypot: bool, admin: Option<bool>) -> (r: Result<(), ReadinessError>)
    ensures
        r == readiness_of(honeypot, admin),
{
    if !honeypot {
        return Err(ReadinessError::Honeypot);
    }
    match admin {
        Some(ready) => {
            if ready {
                Ok(())
            } else {
                Err(ReadinessError::Admin)
            }
        },
        None => Ok(()),
    }
}

pub open spec fn trigger_view(t: Option<StopTrigger>) -> Option<StopTriggerView> {
    match t {
        Some(trigger) => Some(trigger@),
        None => None,
    }
}

/// The stop that comes of a start that was not completed.
pub fn readiness_trigger(result: Result<(), ReadinessError>) -> (r: Option<StopTrigger>)
    ensures
        trigger_view(r) == match result {
            Ok(()) => None,
            Err(e) => Some(
                StopTriggerView::StartupFailure {
                    error: "service readiness failed: "@ + e.message(),
                },
            ),
        },
{
    match result {
        Ok(()) => None,
        Err(e) => Some(
            StopTrigger::StartupFailure {
                error: "service readiness failed: ".to_string().concat(e.to_string().as_str()),
            },
        ),
    }
}

/// The stop that comes of a service manager that could not be told.
pub fn notify_trigger(error: &str) -> (r: StopTrigger)
    ensures
        r@ == (StopTriggerView::StartupFailure {
            error: "failed to notify service readiness: "@ + error@,
        }),
{
    StopTrigger::StartupFailure {
        error: "failed to notify service readiness: ".to_string().concat(error),
    }
}

/// The stop that comes of a signal, or of a signal that could not be awaited.
pub fn signal_trigger(result: Result<(), String>) -> (r: StopTrigger)
    ensures
        r@ == match result {
            Ok(()) => StopTriggerView::Signal,
            Err(error) => StopTriggerView::StartupFailure {
                error: "failed to listen for shutdown signal: "@ + error@,
            },
        },
{
    match result {
        Ok(()) => StopTrigger::Signal,
        Err(error) => StopTrigger::StartupFailure {
            error: "failed to listen for shutdown signal: ".to_string().concat(error.as_str()),
        },
    }
}

// ---------------------------------------------------------------------------
// Failures

/// What the end of a task adds to the failures.
pub open spec fn task_failures(name: Seq<char>, end: TaskEndView, unexpected_stop: bool) -> Seq<
    Seq<char>,
> {
    match end {
        TaskEndView::Completed => if unexpected_stop {
            seq![name + " stopped unexpectedly"@]
        } else {
            Seq::empty()
        },
        TaskEndView::Failed { error } => seq![name + " failed: "@ + error],
        TaskEndView::Crashed { error } => seq![name + " task failed: "@ + error],
    }
}

proof fn lemma_views_push(list: Seq<String>, s: String)
    ensures
        text::views(list.push(s)) == text::views(list) + seq![s@],
{
    assert(text::views(list.push(s)) =~= text::views(list) + seq![s@]);
}

pub fn collect_task_result(
    name: &str,
    end: &TaskEnd,
    unexpected_stop: bool,
    failures: &mut Vec<String>,
)
    ensures
        text::views(final(failures)@) == text::views(old(failures)@) + task_failures(
            name@,
            end@,
            unexpected_stop,
        ),
{
    let failure = match end {
        TaskEnd::Completed => {
            if unexpected_stop {
                name.to_string().concat(" stopped unexpectedly")
            } else {
                assert(text::views(failures@) + Seq::<Seq<char>>::empty() =~= text::views(
                    failures@,
                ));
                return;
            }
        },
        TaskEnd::Failed { error } => name.to_string().concat(" failed: ").concat(error.as_str()),
        TaskEnd::Crashed { error } => name.to_string().concat(" task failed: ").concat(
            error.as_str(),
        ),
    };
    proof {
        lemma_views_push(failures@, failure);
    }
    failures.push(failure);
}

pub open spec fn option_task_failures(
    name: Seq<char>,
    end: Option<TaskEnd>,
    unexpected_stop: bool,
) -> Seq<Seq<char>> {
    match end {
        Some(e) => task_failures(name, e@, unexpected_stop),
        None => Seq::empty(),
    }
}

fn collect_option(
    name: &str,
    end: &Option<TaskEnd>,
    unexpected_stop: bool,
    failures: &mut Vec<String>,
)
    ensures
        text::views(final(failures)@) == text::views(old(failures)@) + option_task_failures(
            name@,
            *end,
            unexpected_stop,
        ),
{
    match end {
        Some(e) => collect_task_result(name, e, unexpected_stop, failures),
        None => {
            assert(text::views(failures@) + Seq::<Seq<char>>::empty() =~= text::views(failures@));
        },
    }
}

/// The failures of a stop: why it came, and how the listeners that were still
/// running then ended.
pub open spec fn stop_failures(
    trigger: StopTriggerView,
    honeypot: Option<TaskEnd>,
    admin: Option<TaskEnd>,
) -> Seq<Seq<char>> {
    let both = option_task_failures("honeypot listener"@, honeypot, false) + option_task_failures(
        "admin API"@,
        admin,
        false,
    );
    match trigger {
        StopTriggerView::Signal => both,
        StopTriggerView::StartupFailure { error } => seq![error] + both,
        StopTriggerView::Honeypot { end } => task_failures("honeypot listener"@, end, true)
            + option_task_failures("admin API"@, admin, false),
        StopTriggerView::Admin { end } => task_failures("admin API"@, end, true)
            + option_task_failures("honeypot listener"@, honeypot, false),
    }
}

/// Collects the failures of a stop. A listener whose end was the reason is not
/// awaited again.
pub fn collect_stop(
    trigger: &StopTrigger,
    honeypot: &Option<TaskEnd>,
    admin: &Option<TaskEnd>,
) -> (failures: Vec<String>)
    ensures
        text::views(failures@) == stop_failures(trigger@, *honeypot, *admin),
{
    let mut failures: Vec<String> = Vec::new();
    assert(text::views(failures@) =~= Seq::empty());
    match trigger {
        StopTrigger::Signal => {
            collect_option("honeypot listener", honeypot, false, &mut failures);
            collect_option("admin API", admin, false, &mut failures);
        },
        StopTrigger::StartupFailure { error } => {
            let error = error.clone();
            proof {
                lemma_views_push(failures@, error);
            }
            failures.push(error);
            collect_option("honeypot listener", honeypot, false, &mut failures);
            collect_option("admin API", admin, false, &mut failures);
        },
        StopTrigger::Honeypot { end } => {
            collect_task_result("honeypot listener", end, true, &mut failures);
            collect_option("admin API", admin, false, &mut failures);
        },
        StopTrigger::Admin { end } => {
            collect_task_result("admin API", end, true, &mut failures);
            collect_option("honeypot listener", honeypot, false, &mut failures);
        },
    }
    assert(text::views(failures@) =~= stop_failures(trigger@, *honeypot, *admin));
    failures
}

/// Adds the failure of the last compaction, if it failed.
pub fn collect_compaction(error: Option<&str>, failures: &mut Vec<String>)
    ensures
        text::views(final(failures)@) == text::views(old(failures)@) + match error {
            Some(e) => seq!["failed to compact banned IP state: "@ + e@],
            None => Seq::empty(),
        },
{
    match error {
        Some(e) => {
            let failure = "failed to compact banned IP state: ".to_string().concat(e);
            proof {
                lemma_views_push(failures@, failure);
            }
            failures.push(failure);
        },
        None => {
            assert(text::views(failures@) + Seq::<Seq<char>>::empty() =~= text::views(failures@));
        },
    }
}

/// Adds the failure of a worker that did not come to an end of its own.
pub fn collect_worker(name: &str, error: Option<&str>, failures: &mut Vec<String>)
    ensures
        text::views(final(failures)@) == text::views(old(failures)@) + match error {
            Some(e) => seq![name@ + " task failed: "@ + e@],
            None => Seq::empty(),
        },
{
    match error {
        Some(e) => {
            let failure = name.to_string().concat(" task failed: ").concat(e);
            proof {
                lemma_views_push(failures@, failure);
            }
            failures.push(failure);
        },
        None => {
            assert(text::views(failures@) + Seq::<Seq<char>>::empty() =~= text::views(failures@));
        },
    }
}

/// What the service ends with: nothing, or all failures in one message.
pub fn exit_error(failures: &Vec<String>) -> (r: Option<String>)
    ensures
        match r {
            Some(message) => failures@.len() > 0 && message@ == text::join(
                text::views(failures@),
                "; "@,
            ),
            None => failures@.len() == 0,
        },
{
    if failures.len() == 0 {
        None
    } else {
        Some(text::join_strings(failures, "; "))
    }
}

// ---------------------------------------------------------------------------
// Laws

/// A service that was told to stop and whose listeners ended well has nothing
/// to report; any other reason to stop is reported, and comes first.
pub proof fn law_stop_is_reported(
    trigger: StopTriggerView,
    honeypot: Option<TaskEnd>,
    admin: Option<TaskEnd>,
)
    requires
        honeypot matches Some(e) ==> e@ is Completed,
        admin matches Some(e) ==> e@ is Completed,
    ensures
        trigger is Signal <==> stop_failures(trigger, honeypot, admin).len() == 0,
        trigger matches StopTriggerView::StartupFailure { error } ==> stop_failures(
            trigger,
            honeypot,
            admin,
        )[0] == error,
{
}

/// Every listener that did not end well is reported, whatever the reason to
/// stop was.
pub proof fn law_every_failure_is_reported(
    trigger: StopTriggerView,
    honeypot: Option<TaskEnd>,
    admin: Option<TaskEnd>,
)
    ensures
        ({
            let failures = stop_failures(trigger, honeypot, admin);
            &&& !(trigger is Honeypot) && honeypot is Some && !(honeypot->0@ is Completed)
                ==> failures.contains(task_failures("honeypot listener"@, honeypot->0@, false)[0])
            &&& !(trigger is Admin) && admin is Some && !(admin->0@ is Completed)
                ==> failures.contains(task_failures("admin API"@, admin->0@, false)[0])
            &&& trigger matches StopTriggerView::Honeypot { end } ==> failures.contains(
                task_failures("honeypot listener"@, end, true)[0],
            )
            &&& trigger matches StopTriggerView::Admin { end } ==> failures.contains(
                task_failures("admin API"@, end, true)[0],
            )
        }),
{
    let failures = stop_failures(trigger, honeypot, admin);
    let of_honeypot = option_task_failures("honeypot listener"@, honeypot, false);
    match trigger {
        StopTriggerView::Signal => {
            if of_honeypot.len() > 0 {
                assert(failures[0] == of_honeypot[0]);
            }
            if option_task_failures("admin API"@, admin, false).len() > 0 {
                assert(failures.last() == option_task_failures("admin API"@, admin, false)[0]);
            }
        },
        StopTriggerView::StartupFailure { .. } => {
            if of_honeypot.len() > 0 {
                assert(failures[1] == of_honeypot[0]);
            }
            if option_task_failures("admin API"@, admin, false).len() > 0 {
                assert(failures.last() == option_task_failures("admin API"@, admin, false)[0]);
            }
        },
        StopTriggerView::Honeypot { end } => {
            assert(failures[0] == task_failures("honeypot listener"@, end, true)[0]);
            if option_task_failures("admin API"@, admin, false).len() > 0 {
                assert(failures.last() == option_task_failures("admin API"@, admin, false)[0]);
            }
        },
        StopTriggerView::Admin { end } => {
            assert(failures[0] == task_failures("admin API"@, end, true)[0]);
            if of_honeypot.len() > 0 {
                assert(failures.last() == of_honeypot[0]);
            }
        },
    }
}

/// What is reported of the end of a task: nothing of one that was to end and
/// ended well, that it stopped where it was not to end, and else its name with
/// its error, told apart by whether it gave up or crashed.
pub proof fn law_ends_are_told_apart(name: Seq<char>, error: Seq<char>, unexpected_stop: bool)
    ensures
        task_failures(name, TaskEndView::Completed, false) == Seq::<Seq<char>>::empty(),
        task_failures(name, TaskEndView::Completed, true) == seq![name + " stopped unexpectedly"@],
        task_failures(name, TaskEndView::Failed { error }, unexpected_stop) == seq![
            name + " failed: "@ + error,
        ],
        task_failures(name, TaskEndView::Crashed { error }, unexpected_stop) == seq![
            name + " task failed: "@ + error,
        ],
{
}

/// The failures of a stop come in an order: the reason first, then the
/// honeypot, then the administration; a listener whose end was the reason is
/// not reported a second time.
pub proof fn law_failures_have_an_order(
    error: Seq<char>,
    end: TaskEndView,
    honeypot: Option<TaskEnd>,
    admin: Option<TaskEnd>,
)
    ensures
        ({
            let of_honeypot = match honeypot {
                Some(e) => task_failures("honeypot listener"@, e@, false),
                None => Seq::empty(),
            };
            let of_admin = match admin {
                Some(e) => task_failures("admin API"@, e@, false),
                None => Seq::empty(),
            };
            &&& stop_failures(StopTriggerView::Signal, honeypot, admin) == of_honeypot + of_admin
            &&& stop_failures(StopTriggerView::StartupFailure { error }, honeypot, admin) == seq![
                error,
            ] + (of_honeypot + of_admin)
            &&& stop_failures(StopTriggerView::Honeypot { end }, honeypot, admin) == task_failures(
                "honeypot listener"@,
                end,
                true,
            ) + of_admin
            &&& stop_failures(StopTriggerView::Admin { end }, honeypot, admin) == task_failures(
                "admin API"@,
                end,
                true,
            ) + of_honeypot
        }),
{
}

/// The service is ready exactly when every listener that it has is; otherwise
/// the one that is missing is named, the honeypot first.
pub proof fn law_all_listeners_have_to_be_ready(honeypot: bool, admin: Option<bool>)
    ensures
        readiness_of(honeypot, admin) is Ok <==> honeypot && (admin is None || admin == Some(true)),
        !honeypot ==> readiness_of(honeypot, admin) == Err::<(), _>(ReadinessError::Honeypot),
        honeypot && admin == Some(false) ==> readiness_of(honeypot, admin) == Err::<(), _>(
            ReadinessError::Admin,
        ),
        ReadinessError::Honeypot.message()
            == "honeypot listener stopped before reporting readiness"@,
        ReadinessError::Admin.message() == "admin API stopped before reporting readiness"@,
{
    if let Some(ready) = admin {
        assert(ready || admin == Some(false));
    }
}

} // verus!
