//! The decisions around loading, using and releasing the speech models: when a
//! recognition may start, what a load request does, when a deferred release fires,
//! and the status a finished recognition reports.
use vstd::prelude::*;
use crate::text::{push_str_chars, string_of};

verus! {

/// Models are being loaded.
pub const INIT_PENDING: u8 = 0;
/// Models are loaded and ready.
pub const INIT_READY: u8 = 1;
/// Loading failed.
pub const INIT_ERROR: u8 = 2;
/// Models were released (or never loaded).
pub const INIT_RELEASED: u8 = 3;

/// The model loading status reported to the user interface.
pub struct InitStatus {
    /// One of the `INIT_*` codes.
    pub status: u8,
    /// The error of the last failed load.
    pub error: String,
    /// Threads used by the loaded models.
    pub num_threads: u32,
}

/// What a request to have the models loaded does.
#[derive(PartialEq, Eq, Structural, Clone, Copy, Debug)]
pub enum EnsureAction {
    /// They are loaded: report ready with the current thread count.
    ReportReady,
    /// They are loading: report pending, and the user interface keeps polling.
    ReportPending,
    /// They failed or were released: load them again.
    Load,
}

/// The action for a load request in the given status.
pub open spec fn spec_ensure_action(status: u8) -> EnsureAction {
    if status == INIT_READY {
        EnsureAction::ReportReady
    } else if status == INIT_PENDING {
        EnsureAction::ReportPending
    } else {
        EnsureAction::Load
    }
}

/// Decides what a request to have the models loaded does.
pub fn ensure_action(status: u8) -> (r: EnsureAction)
    ensures
        r == spec_ensure_action(status),
{
    if status == INIT_READY {
        EnsureAction::ReportReady
    } else if status == INIT_PENDING {
        EnsureAction::ReportPending
    } else {
        EnsureAction::Load
    }
}

/// The status reported at once for a load request that does not load: ready with
/// the thread count, or pending with no threads and no error.
pub fn immediate_status(action: EnsureAction, num_threads: u32) -> (r: Option<InitStatus>)
    ensures
        action == EnsureAction::ReportReady ==> (r matches Some(s) && s.status == INIT_READY
            && s.error@.len() == 0 && s.num_threads == num_threads),
        action == EnsureAction::ReportPending ==> (r matches Some(s) && s.status == INIT_PENDING
            && s.error@.len() == 0 && s.num_threads == 0),
        action == EnsureAction::Load ==> r is None,
{
    match action {
        EnsureAction::ReportReady => Some(InitStatus { status: INIT_READY, error: String::new(), num_threads }),
        EnsureAction::ReportPending => Some(InitStatus { status: INIT_PENDING, error: String::new(), num_threads: 0 }),
        EnsureAction::Load => None,
    }
}

/// Why a recognition cannot start.
pub enum StartRefusal {
    /// Another recognition is running.
    AlreadyRunning,
    /// The models are still loading.
    StillLoading,
    /// Loading the models failed, with this error.
    InitFailed(String),
    /// The models were released.
    Released,
}

/// A recognition may start: none is running and the models are neither loading,
/// failed nor released.
pub open spec fn spec_may_start(was_running: bool, status: u8) -> bool {
    !was_running && status != INIT_PENDING && status != INIT_ERROR && status != INIT_RELEASED
}

/// Decides whether a recognition may start. `was_running` is the running flag as it
/// was before this request set it.
pub fn check_recognition_start(was_running: bool, status: u8, init_error: &String) -> (r: Result<(), StartRefusal>)
    ensures
        r is Ok <==> spec_may_start(was_running, status),
        r matches Err(e) ==> match e {
            StartRefusal::AlreadyRunning => was_running,
            StartRefusal::StillLoading => !was_running && status == INIT_PENDING,
            StartRefusal::InitFailed(m) => !was_running && status == INIT_ERROR && m@ == init_error@,
            StartRefusal::Released => !was_running && status == INIT_RELEASED,
        },
{
    if was_running {
        Err(StartRefusal::AlreadyRunning)
    } else if status == INIT_PENDING {
        Err(StartRefusal::StillLoading)
    } else if status == INIT_ERROR {
        Err(StartRefusal::InitFailed(init_error.clone()))
    } else if status == INIT_RELEASED {
        Err(StartRefusal::Released)
    } else {
        Ok(())
    }
}

/// The message shown for a refused start.
pub open spec fn spec_refusal_message(r: StartRefusal) -> Seq<char> {
    match r {
        StartRefusal::AlreadyRunning => "Recognition is already running"@,
        StartRefusal::StillLoading => "Models are still loading, please wait"@,
        StartRefusal::InitFailed(e) => "Initialization failed: "@ + e@,
        StartRefusal::Released => "Models have been released. Please wait for them to reload."@,
    }
}

impl StartRefusal {
    /// The message shown to the user.
    pub fn message(&self) -> (r: String)
        ensures
            r@ == spec_refusal_message(*self),
    {
        let mut out: Vec<char> = Vec::new();
        match self {
            StartRefusal::AlreadyRunning => push_str_chars(&mut out, "Recognition is already running"),
            StartRefusal::StillLoading => push_str_chars(&mut out, "Models are still loading, please wait"),
            StartRefusal::InitFailed(e) => {
                push_str_chars(&mut out, "Initialization failed: ");
                push_str_chars(&mut out, e.as_str());
            },
            StartRefusal::Released => push_str_chars(
                &mut out,
                "Models have been released. Please wait for them to reload.",
            ),
        }
        string_of(&out)
    }
}

/// A deferred release frees the models only if no newer load or release request came
/// after it, no recognition is running, and the models are loaded.
pub open spec fn spec_release_due(token_now: u64, my_token: u64, running: bool, status: u8) -> bool {
    token_now == my_token && !running && status == INIT_READY
}

/// Whether a deferred release should free the models now.
pub fn release_due(token_now: u64, my_token: u64, running: bool, status: u8) -> (r: bool)
    ensures
        r == spec_release_due(token_now, my_token, running, status),
{
    token_now == my_token && !running && status == INIT_READY
}

/// The status text of a finished recognition: `cancelled` when it was cancelled,
/// `done` when it succeeded, `error: ` and the message when it failed.
pub open spec fn spec_finished_status(succeeded: bool, cancelled: bool, error: Seq<char>) -> Seq<char> {
    if succeeded {
        if cancelled { "cancelled"@ } else { "done"@ }
    } else {
        "error: "@ + error
    }
}

/// The status of a finished recognition, and whether its progress becomes 100 %
/// (only when it succeeded without being cancelled).
pub fn finished_status(succeeded: bool, cancelled: bool, error: &str) -> (r: (String, bool))
    ensures
        r.0@ == spec_finished_status(succeeded, cancelled, error@),
        r.1 == (succeeded && !cancelled),
{
    let mut out: Vec<char> = Vec::new();
    if succeeded {
        if cancelled {
            push_str_chars(&mut out, "cancelled");
        } else {
            push_str_chars(&mut out, "done");
        }
    } else {
        push_str_chars(&mut out, "error: ");
        push_str_chars(&mut out, error);
    }
    (string_of(&out), succeeded && !cancelled)
}

/// Why the speech-detection settings cannot be changed now.
#[derive(PartialEq, Eq, Structural, Clone, Copy, Debug)]
pub enum SettingsRefusal {
    /// A recognition is running.
    Running,
    /// The models are still loading.
    StillLoading,
}

/// Decides whether the speech-detection settings may be changed.
pub fn check_settings_change(running: bool, status: u8) -> (r: Result<(), SettingsRefusal>)
    ensures
        r == (if running {
            Err(SettingsRefusal::Running)
        } else if status == INIT_PENDING {
            Err(SettingsRefusal::StillLoading)
        } else {
            Ok(())
        }),
{
    if running {
        Err(SettingsRefusal::Running)
    } else if status == INIT_PENDING {
        Err(SettingsRefusal::StillLoading)
    } else {
        Ok(())
    }
}

impl SettingsRefusal {
    /// The message shown to the user.
    pub fn message(&self) -> (r: &'static str)
        ensures
            r@ == match *self {
                SettingsRefusal::Running => "Cannot change settings while recognition is running"@,
                SettingsRefusal::StillLoading => "Models are still loading, please wait"@,
            },
    {
        match self {
            SettingsRefusal::Running => "Cannot change settings while recognition is running",
            SettingsRefusal::StillLoading => "Models are still loading, please wait",
        }
    }
}

/// Whether a thread count for the speech models is accepted: 1 to 16.
pub fn num_threads_valid(n: i32) -> (r: bool)
    ensures
        r == (1 <= n <= 16),
{
    1 <= n && n <= 16
}

/// A recognition runs only on loaded models and one at a time: for every status the
/// loader reports, a start is allowed exactly when none runs and the models are ready.
pub proof fn lemma_start_needs_ready(was_running: bool, status: u8)
    requires
        status <= INIT_RELEASED,
    ensures
        spec_may_start(was_running, status) <==> (!was_running && status == INIT_READY),
{
}

/// Only the latest release request can free the models: once a later load or release
/// request has moved the token on, an earlier scheduled release never fires.
pub proof fn lemma_release_superseded(token_now: u64, my_token: u64, running: bool, status: u8)
    requires
        token_now != my_token,
    ensures
        !spec_release_due(token_now, my_token, running, status),
{
}

/// A load request loads only when the models are neither loaded nor loading, and
/// answers at once otherwise.
pub proof fn lemma_ensure_loads_once(status: u8)
    ensures
        (spec_ensure_action(status) == EnsureAction::Load) <==> (status != INIT_READY && status != INIT_PENDING),
{
}

} // verus!
