//! The service-lifecycle state machine: how a status query maps to a
//! service state, and which requests an uninstall or restart issues, in
//! what order, with which fixed waits. The hosting process performs the
//! actual calls against the OS service manager and reports their
//! outcomes; every operation is single-attempt, with no rollback.

use vstd::prelude::*;

verus! {

pub const SERVICE_NAME: &'static str = "MonitorSystemOPs";

pub const SERVICE_DISPLAY_NAME: &'static str = "System Operations Monitor";

pub const SERVICE_DESCRIPTION: &'static str =
    "Monitors system resources and provides operational insights";

/// The grace period, in seconds, between a stop request and the delete
/// during uninstall.
pub const UNINSTALL_STOP_WAIT_SECS: u64 = 5;

/// The fixed delay, in seconds, between the stop and the start of a
/// restart.
pub const RESTART_WAIT_SECS: u64 = 2;

/// The state of the agent's OS registration, derived fresh from the
/// service manager on every query and never cached here.
#[derive(Clone, Copy, PartialEq, Eq, Structural, Debug)]
pub enum ServiceState {
    NotInstalled,
    Stopped,
    StartPending,
    Running,
    StopPending,
}

/// One request to the OS service manager; a wait is a fixed sleep between
/// requests.
#[derive(Clone, Copy, PartialEq, Eq, Structural, Debug)]
pub enum ServiceAction {
    Stop,
    Start,
    Delete,
    WaitSecs(u64),
}

/// What a status query reports: the derived state and, when running, the
/// process id.
#[derive(Clone, Copy, PartialEq, Eq, Structural, Debug)]
pub struct StatusReport {
    pub state: ServiceState,
    pub pid: Option<u32>,
}

/// The service state a raw service-manager state code denotes: 1 stopped,
/// 2 start pending, 3 stop pending, and everything else — running and the
/// pause family, where the process is loaded — running.
pub open spec fn spec_state_from_code(code: u32) -> ServiceState {
    if code == 1 {
        ServiceState::Stopped
    } else if code == 2 {
        ServiceState::StartPending
    } else if code == 3 {
        ServiceState::StopPending
    } else {
        ServiceState::Running
    }
}

/// Drives the OS service registration. Stateless: every operation derives
/// what it needs from a fresh query.
pub struct WindowsServiceManager;

impl WindowsServiceManager {
    /// Interprets a status query: a missing registration reports
    /// `NotInstalled` rather than an error; otherwise the state code and
    /// process id are taken as the manager reported them.
    pub fn status_report(query: Option<(u32, Option<u32>)>) -> (r: StatusReport)
        ensures
            query is None ==> r == (StatusReport {
                state: ServiceState::NotInstalled,
                pid: None,
            }),
            query matches Some(q) ==> r == (StatusReport {
                state: spec_state_from_code(q.0),
                pid: q.1,
            }),
    {
        match query {
            None => StatusReport { state: ServiceState::NotInstalled, pid: None },
            Some((code, pid)) => StatusReport { state: state_from_code(code), pid },
        }
    }

    /// The requests an uninstall issues: a service not known to be
    /// stopped is asked to stop and given a fixed grace period — without
    /// polling for completion — before the delete; a stopped one is
    /// deleted at once.
    pub fn uninstall_plan(current: ServiceState) -> (r: Vec<ServiceAction>)
        ensures
            current != ServiceState::Stopped ==> r@ =~= seq![
                ServiceAction::Stop,
                ServiceAction::WaitSecs(UNINSTALL_STOP_WAIT_SECS),
                ServiceAction::Delete,
            ],
            current == ServiceState::Stopped ==> r@ =~= seq![ServiceAction::Delete],
    {
        let mut r: Vec<ServiceAction> = Vec::new();
        if current != ServiceState::Stopped {
            r.push(ServiceAction::Stop);
            r.push(ServiceAction::WaitSecs(UNINSTALL_STOP_WAIT_SECS));
        }
        r.push(ServiceAction::Delete);
        r
    }

    /// The requests a restart issues: stop, a fixed delay, start; not
    /// atomic — the service is absent from running for the delay window.
    pub fn restart_plan() -> (r: Vec<ServiceAction>)
        ensures
            r@ =~= seq![
                ServiceAction::Stop,
                ServiceAction::WaitSecs(RESTART_WAIT_SECS),
                ServiceAction::Start,
            ],
    {
        let mut r: Vec<ServiceAction> = Vec::new();
        r.push(ServiceAction::Stop);
        r.push(ServiceAction::WaitSecs(RESTART_WAIT_SECS));
        r.push(ServiceAction::Start);
        r
    }

    /// The registration an install submits: the fixed service name,
    /// display name and description, auto-start, and the restricted local
    /// service account. Install fails when a registration with this name
    /// exists; there is no idempotent upsert, and a failure after the
    /// create — setting the description — leaves the registration in
    /// place.
    pub fn install_request() -> (r: ServiceRegistration)
        ensures
            r.name@ == SERVICE_NAME@,
            r.display_name@ == SERVICE_DISPLAY_NAME@,
            r.description@ == SERVICE_DESCRIPTION@,
            r.launch_argument@ == "--service"@,
            r.account_name@ == "NT AUTHORITY\\LocalService"@,
            r.auto_start,
    {
        ServiceRegistration {
            name: String::from_str(SERVICE_NAME),
            display_name: String::from_str(SERVICE_DISPLAY_NAME),
            description: String::from_str(SERVICE_DESCRIPTION),
            launch_argument: String::from_str("--service"),
            account_name: String::from_str("NT AUTHORITY\\LocalService"),
            auto_start: true,
        }
    }
}

/// The data of one service registration request.
pub struct ServiceRegistration {
    pub name: String,
    pub display_name: String,
    pub description: String,
    pub launch_argument: String,
    pub account_name: String,
    pub auto_start: bool,
}

/// Maps a raw state code to the derived service state.
pub fn state_from_code(code: u32) -> (r: ServiceState)
    ensures
        r == spec_state_from_code(code),
{
    if code == 1 {
        ServiceState::Stopped
    } else if code == 2 {
        ServiceState::StartPending
    } else if code == 3 {
        ServiceState::StopPending
    } else {
        ServiceState::Running
    }
}

} // verus!
