use vstd::prelude::*;
use vstd::string::StringExecFns;

use crate::models::StartupRegistrationState;

verus! {

pub open spec fn unsupported_startup_text() -> Seq<char> {
    "Startup is not implemented on this platform yet."@
}

pub open spec fn startup_on_text() -> Seq<char> {
    "Dimsome launches when you sign in."@
}

pub open spec fn startup_off_text() -> Seq<char> {
    "Startup is off."@
}

/// Launch at sign-in where the platform offers no way to register it: off, and
/// not changeable.
pub fn get_startup_state() -> (r: StartupRegistrationState)
    ensures
        !r.is_enabled,
        !r.can_change,
        r.status_text@ == unsupported_startup_text(),
{
    StartupRegistrationState {
        is_enabled: false,
        can_change: false,
        status_text: String::from_str("Startup is not implemented on this platform yet."),
    }
}

/// Where the platform offers no way to register launch at sign-in, a request to
/// change it reports the state unchanged rather than pretending it succeeded.
pub fn set_startup_enabled(_enabled: bool, _executable_path: &str) -> (r: Result<StartupRegistrationState, String>)
    ensures
        r matches Ok(s) && !s.is_enabled && !s.can_change && s.status_text@ == unsupported_startup_text(),
{
    Ok(get_startup_state())
}

/// The launch-at-sign-in state read from the Windows `Run` key: on where the
/// app's entry is there, off otherwise; changeable either way.
pub fn registered_startup_state(entry_present: bool) -> (r: StartupRegistrationState)
    ensures
        r.is_enabled == entry_present,
        r.can_change,
        entry_present ==> r.status_text@ == startup_on_text(),
        !entry_present ==> r.status_text@ == startup_off_text(),
{
    if entry_present {
        StartupRegistrationState {
            is_enabled: true,
            can_change: true,
            status_text: String::from_str("Dimsome launches when you sign in."),
        }
    } else {
        StartupRegistrationState {
            is_enabled: false,
            can_change: true,
            status_text: String::from_str("Startup is off."),
        }
    }
}

pub open spec fn startup_update_failed_text() -> Seq<char> {
    "Failed to update startup registration."@
}

/// The message for a registry update that did not succeed.
pub fn startup_update_failed() -> (r: String)
    ensures
        r@ == startup_update_failed_text(),
{
    String::from_str("Failed to update startup registration.")
}

} // verus!
