//! Which answer a JSON-RPC request gets.
//!
//! The server speaks the handful of methods a tools-only server needs
//! (`initialize`, `tools/list`, `tools/call`, `ping`). Framing and JSON are
//! the caller's; this decides, from the parts of a request, what kind of
//! response it is owed.

use vstd::prelude::*;

use crate::text::{append_to, chars_of, str_eq, string_of};

verus! {

/// The protocol revision used when a client asks for one not known here.
pub const DEFAULT_PROTOCOL: &'static str = "2025-06-18";

/// The protocol revisions this server speaks.
pub open spec fn supported(p: Seq<char>) -> bool {
    p == "2025-06-18"@ || p == "2025-03-26"@ || p == "2024-11-05"@
}

/// The revision to answer an `initialize` with: the one asked for where it
/// is known, else the default.
pub open spec fn negotiated(requested: Option<Seq<char>>) -> Seq<char> {
    match requested {
        Some(p) => if supported(p) {
            p
        } else {
            DEFAULT_PROTOCOL@
        },
        None => DEFAULT_PROTOCOL@,
    }
}

/// What a request is owed.
#[derive(Debug)]
pub enum Route {
    /// A notification: no response at all.
    Silent,
    /// The server's description, in this protocol revision.
    Initialize(String),
    Ping,
    ListTools,
    /// Run the named tool; its failure is a result the model sees, not a
    /// protocol error.
    CallTool(String),
    /// A list this server declares it does not serve, answered empty under
    /// this key.
    Empty(String),
    /// A protocol error with its code and message.
    Error(i32, String),
}

pub enum RouteView {
    Silent,
    Initialize(Seq<char>),
    Ping,
    ListTools,
    CallTool(Seq<char>),
    Empty(Seq<char>),
    Error(i32, Seq<char>),
}

impl View for Route {
    type V = RouteView;

    open spec fn view(&self) -> RouteView {
        match self {
            Route::Silent => RouteView::Silent,
            Route::Initialize(p) => RouteView::Initialize(p@),
            Route::Ping => RouteView::Ping,
            Route::ListTools => RouteView::ListTools,
            Route::CallTool(n) => RouteView::CallTool(n@),
            Route::Empty(k) => RouteView::Empty(k@),
            Route::Error(c, m) => RouteView::Error(*c, m@),
        }
    }
}

/// The answer a request is owed, from whether it has an id, its method
/// (empty where it has none), the protocol asked for, and the tool named.
pub open spec fn route_of(has_id: bool, method: Seq<char>, protocol: Option<Seq<char>>, tool: Seq<char>) -> RouteView {
    if !has_id {
        RouteView::Silent
    } else if method == "initialize"@ {
        RouteView::Initialize(negotiated(protocol))
    } else if method == "ping"@ {
        RouteView::Ping
    } else if method == "tools/list"@ {
        RouteView::ListTools
    } else if method == "tools/call"@ {
        if tool.len() == 0 {
            RouteView::Error(-32602i32, "tools/call requires a tool name"@)
        } else {
            RouteView::CallTool(tool)
        }
    } else if method == "resources/list"@ {
        RouteView::Empty("resources"@)
    } else if method == "resources/templates/list"@ {
        RouteView::Empty("resourceTemplates"@)
    } else if method == "prompts/list"@ {
        RouteView::Empty("prompts"@)
    } else {
        RouteView::Error(-32601i32, "unknown method: "@ + method)
    }
}

fn negotiate(requested: Option<&str>) -> (r: String)
    ensures
        r@ == negotiated(match requested {
            Some(p) => Some(p@),
            None => None,
        }),
{
    match requested {
        Some(p) => if str_eq(p, "2025-06-18") || str_eq(p, "2025-03-26") || str_eq(p, "2024-11-05") {
            p.to_owned()
        } else {
            DEFAULT_PROTOCOL.to_owned()
        },
        None => DEFAULT_PROTOCOL.to_owned(),
    }
}

/// Decide what a request is owed. Notifications are told apart by having
/// no id.
pub fn route(has_id: bool, method: &str, protocol: Option<&str>, tool: &str) -> (r: Route)
    ensures
        r@ == route_of(has_id, method@, match protocol {
            Some(p) => Some(p@),
            None => None,
        }, tool@),
{
    if !has_id {
        return Route::Silent;
    }
    if str_eq(method, "initialize") {
        return Route::Initialize(negotiate(protocol));
    }
    if str_eq(method, "ping") {
        return Route::Ping;
    }
    if str_eq(method, "tools/list") {
        return Route::ListTools;
    }
    if str_eq(method, "tools/call") {
        if tool.is_empty() {
            return Route::Error(-32602, "tools/call requires a tool name".to_owned());
        }
        return Route::CallTool(tool.to_owned());
    }
    if str_eq(method, "resources/list") {
        return Route::Empty("resources".to_owned());
    }
    if str_eq(method, "resources/templates/list") {
        return Route::Empty("resourceTemplates".to_owned());
    }
    if str_eq(method, "prompts/list") {
        return Route::Empty("prompts".to_owned());
    }
    let mut m = chars_of("unknown method: ");
    let v = chars_of(method);
    append_to(&mut m, v.as_slice());
    Route::Error(-32601, string_of(m.as_slice()))
}

} // verus!
