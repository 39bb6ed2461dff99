//! The dispatcher: which requests are CONNECT requests, and for whom.

use crate::session::{fresh, Session, SessionView};
use vstd::prelude::*;

verus! {

/// Where a request goes.
#[derive(Debug)]
pub enum Route {
    /// To the CONNECT handler, as a session that has just received it.
    Connect(Session),
    /// To the default application handler.
    Default,
}

/// A [`Route`] as specifications see it.
pub enum RouteView {
    Connect(SessionView),
    Default,
}

impl View for Route {
    type V = RouteView;

    open spec fn view(&self) -> RouteView {
        match *self {
            Route::Connect(session) => RouteView::Connect(session@),
            Route::Default => RouteView::Default,
        }
    }
}

/// The method of the requests that open a tunnel.
pub const CONNECT: &'static str = "CONNECT";

/// The name of a client whose remote address is not known.
pub const UNKNOWN_CLIENT: &'static str = "unknown";

/// The name under which a client appears in the log: its remote IP address,
/// or a placeholder when the address is not known.
pub open spec fn client_label_of(remote_ip: Option<Seq<char>>) -> Seq<char> {
    match remote_ip {
        Some(ip) => ip,
        None => UNKNOWN_CLIENT@,
    }
}

/// The route of a request with this method sent by this client. Method names
/// are case-sensitive: only `CONNECT` itself is a CONNECT request.
pub open spec fn route_of(method: Seq<char>, client_addr: Seq<char>) -> RouteView {
    if method == CONNECT@ {
        RouteView::Connect(fresh(client_addr))
    } else {
        RouteView::Default
    }
}

/// Names the client of a request. A request whose remote address is not
/// known is served all the same.
pub fn client_label(remote_ip: Option<String>) -> (label: String)
    ensures
        label@ == client_label_of(
            match remote_ip {
                Some(ip) => Some(ip@),
                None => None,
            },
        ),
{
    match remote_ip {
        Some(ip) => ip,
        None => UNKNOWN_CLIENT.to_owned(),
    }
}

/// Routes a request by its method. Only a CONNECT request reaches the CONNECT
/// handler; every other request goes to the default handler and starts no
/// session.
pub fn dispatch(method: &str, client_addr: String) -> (route: Route)
    ensures
        route@ == route_of(method@, client_addr@),
        method@ != CONNECT@ ==> route is Default,
{
    if method.to_owned() == CONNECT.to_owned() {
        Route::Connect(Session::new(client_addr))
    } else {
        Route::Default
    }
}

} // verus!
