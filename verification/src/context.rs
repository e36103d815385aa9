//! The inter-application call protocol: a single-slot channel that one
//! application fills during an update call and the dispatcher drains right
//! after it returns.

use vstd::prelude::*;

verus! {

/// A transient instruction for the dispatcher to replace the active
/// application: the target's name and its one argument.
pub struct SwitchRequest {
    pub application_type: String,
    pub arguments: String,
}

/// The per-cycle call context. It lives for one dispatch cycle and holds at
/// most one pending switch request; a later call overwrites an earlier one
/// rather than queueing behind it.
pub struct Context {
    pub request: Option<SwitchRequest>,
}

impl Context {
    /// An empty context, as the dispatcher hands to each update call.
    pub fn new() -> (r: Context)
        ensures
            r.request is None,
    {
        Context { request: Option::None }
    }

    /// Request activation of the named application with one argument. A
    /// second call in the same cycle replaces the first.
    pub fn call(&mut self, application_type: String, arguments: String)
        ensures
            final(self).request matches Option::Some(sr) && sr.application_type
                == application_type && sr.arguments == arguments,
    {
        self.request = Option::Some(SwitchRequest { application_type, arguments });
    }

    /// Drain the pending request, leaving the context empty, as the
    /// dispatcher does once per cycle after the active application returns.
    pub fn take_call(&mut self) -> (r: Option<SwitchRequest>)
        ensures
            r == old(self).request,
            final(self).request is None,
    {
        let mut r: Option<SwitchRequest> = Option::None;
        core::mem::swap(&mut r, &mut self.request);
        r
    }

    /// Drain the context and hand back the argument of a pending request
    /// that names the editor — the one target the dispatcher knows. Any
    /// other pending request is dropped, as a name without a registered
    /// target.
    pub fn take_editor_call(&mut self) -> (r: Option<String>)
        ensures
            final(self).request is None,
            (match old(self).request {
                Option::Some(sr) => if sr.application_type@ == "editor"@ {
                    r matches Option::Some(p) && p == sr.arguments
                } else {
                    r is None
                },
                Option::None => r is None,
            }),
    {
        let req = self.take_call();
        match req {
            Option::Some(sr) => {
                if sr.application_type == "editor".to_owned() {
                    Option::Some(sr.arguments)
                } else {
                    Option::None
                }
            },
            Option::None => Option::None,
        }
    }
}

} // verus!
