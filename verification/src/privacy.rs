//! What observers of local context tools see: that there was a call, and nothing of what it says.

use vstd::prelude::*;
use vstd::string::*;

use crate::json::json_text;
use crate::json::Json;
use crate::json::JsonView;
use crate::records::ContextManagementBackend;
use crate::text::opt_view;
use crate::text::same_text;

verus! {

/// A call of a tool, as far as its observers are concerned.
#[derive(Debug)]
pub struct ToolInvocation {
    pub context_management_backend: ContextManagementBackend,
    pub context_management_enabled: bool,
    pub namespace: Option<String>,
    /// What the logs say of the call's arguments where nothing is private.
    pub log_text: String,
}

/// The namespaces of the local context tools, under their own names and the ones they had before.
pub open spec fn private_namespace(namespace: Option<Seq<char>>) -> bool {
    match namespace {
        Some(name) => {
            ||| name == "history"@
            ||| name == "notes"@
            ||| name == "local_history"@
            ||| name == "local_notes"@
        },
        None => false,
    }
}

/// The call is one of a local context tool.
pub open spec fn is_private(invocation: ToolInvocation) -> bool {
    &&& invocation.context_management_backend == ContextManagementBackend::Local
    &&& invocation.context_management_enabled
    &&& private_namespace(opt_view(invocation.namespace))
}

/// What observers see of a private call.
pub open spec fn private_view() -> JsonView {
    JsonView::Object(map!["local_context_private"@ => JsonView::Bool(true)])
}

/// What observers see of a private call.
pub fn private_marker() -> (marker: Json)
    ensures
        marker@ == private_view(),
{
    let mut marker = Json::object();
    marker.set("local_context_private", Json::Bool(true));
    marker
}

/// What hooks see in place of the arguments of a private call; nothing takes the place of any other.
pub fn hook_input(invocation: &ToolInvocation) -> (input: Option<Json>)
    ensures
        match input {
            Some(marker) => is_private(*invocation) && marker@ == private_view(),
            None => !is_private(*invocation),
        },
{
    let local: bool = match invocation.context_management_backend {
        ContextManagementBackend::Local => true,
        ContextManagementBackend::Codex => false,
    };
    let named: bool = match &invocation.namespace {
        Some(name) => {
            same_text(name.as_str(), "history") || same_text(name.as_str(), "notes") || same_text(
                name.as_str(),
                "local_history",
            ) || same_text(name.as_str(), "local_notes")
        },
        None => false,
    };
    if local && invocation.context_management_enabled && named {
        Some(private_marker())
    } else {
        None
    }
}

/// What the logs say of a call's arguments.
pub open spec fn logged(invocation: ToolInvocation) -> Seq<char> {
    if is_private(invocation) {
        json_text(private_view())
    } else {
        invocation.log_text@
    }
}

/// What the logs say of a call's arguments.
pub fn log_payload(invocation: &ToolInvocation) -> (text: String)
    ensures
        text@ == logged(*invocation),
{
    match hook_input(invocation) {
        Some(marker) => marker.to_text(),
        None => invocation.log_text.clone(),
    }
}

/// The logs say the same of every private call, whatever its arguments are.
pub proof fn law_logs_tell_nothing_of_private_calls(left: ToolInvocation, right: ToolInvocation)
    requires
        is_private(left),
        is_private(right),
    ensures
        logged(left) == logged(right),
{
}

/// With the other backend nothing is hidden.
pub proof fn law_other_backend_is_unchanged(invocation: ToolInvocation)
    requires
        invocation.context_management_backend == ContextManagementBackend::Codex,
    ensures
        logged(invocation) == invocation.log_text@,
{
}

} // verus!
