//! The process-wide cast session and the control commands against it.
//!
//! At most one session exists. A successful load writes the triple the
//! receiver issued; a later load replaces it whole. Control commands
//! read it: `stop` yields a plan against the stored device and
//! session, anything else is refused before any connection is made.

use vstd::prelude::*;

verus! {

/// The identifiers of the active cast: the device addressed and the
/// application instance running on it.
pub struct ActiveSession {
    pub device_ip: String,
    pub transport_id: String,
    pub session_id: String,
}

/// The store: empty, or the one active session.
pub struct SessionStore {
    pub current: Option<ActiveSession>,
}

/// The store after a successful load: exactly the new triple.
pub open spec fn record_spec(store: SessionStore, session: ActiveSession) -> SessionStore {
    SessionStore { current: Some(session) }
}

impl SessionStore {
    /// An empty store: no cast is active.
    pub fn new() -> (r: SessionStore)
        ensures
            r.current is None,
    {
        SessionStore { current: None }
    }

    /// Records a successful load. Whatever was stored before is gone;
    /// the store holds exactly the triple the load returned.
    pub fn record(&mut self, session: ActiveSession)
        ensures
            *final(self) == record_spec(*old(self), session),
            final(self).current == Some(session),
    {
        self.current = Some(session);
    }
}

/// Two loads in a row leave exactly the second load's triple, whatever
/// the store held before.
pub proof fn lemma_record_replaces(store: SessionStore, first: ActiveSession, second: ActiveSession)
    ensures
        record_spec(record_spec(store, first), second).current == Some(second),
{
}

/// The connection a `stop` command must make.
pub struct StopPlan {
    pub device_ip: String,
    pub session_id: String,
}

/// Decides a control command. Without an active session every command
/// fails; with one, `stop` yields the stored device and session, and
/// any other action is refused unchanged.
pub fn control_plan(store: &SessionStore, action: &String) -> (r: Result<StopPlan, String>)
    ensures
        store.current is None ==> r is Err && r->Err_0@ == "No active cast connection"@,
        store.current is Some && action@ != "stop"@ ==> r is Err && r->Err_0@
            == "Control partially implemented"@,
        store.current is Some && action@ == "stop"@ ==> r is Ok && r->Ok_0.device_ip@
            == store.current->0.device_ip@ && r->Ok_0.session_id@ == store.current->0.session_id@,
{
    match &store.current {
        Option::None => Err("No active cast connection".to_owned()),
        Option::Some(s) => {
            let stop = "stop".to_owned();
            if *action == stop {
                Ok(StopPlan { device_ip: s.device_ip.clone(), session_id: s.session_id.clone() })
            } else {
                Err("Control partially implemented".to_owned())
            }
        },
    }
}

/// The answer a completed control command returns.
pub fn executed_message(action: &String) -> (r: String)
    ensures
        r@ == "Executed "@ + action@,
{
    let mut out = "Executed ".to_owned();
    out.append(action.as_str());
    out
}

} // verus!
