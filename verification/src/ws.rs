//! The WebSocket session state machine: how one session reacts to received
//! actions and to frames from the peer. The surrounding event loop performs
//! the commands; the decisions are all here.

use vstd::prelude::*;
use vstd::string::StringExecFns;

use crate::Action;
use crate::strutil::chars_append_str;
use crate::strutil::chars_to_string;
use crate::strutil::str_chars;

verus! {

/// One thing that can happen to a WebSocket session: an action arrives on
/// the broadcast channel, the channel reports a condition, or a frame (or
/// error) arrives from the peer.
pub enum WsEvent {
    /// An action was received from the broadcast channel.
    Recv(Action),
    /// All senders are gone; no further action can arrive.
    RecvClosed,
    /// The session fell behind and missed the given number of actions.
    RecvLagged(u64),
    /// The peer stream ended.
    PeerNone,
    /// The peer sent a close frame.
    PeerClose,
    /// The peer sent a ping frame.
    PeerPing,
    /// The peer reset the connection without a closing handshake.
    PeerReset,
    /// Another error occurred while receiving from the peer.
    PeerError,
    /// The peer sent some other frame.
    PeerOther,
}

/// What the session does in reaction to one event.
pub enum WsCommand {
    /// Send a text frame with the given payload.
    Send(String),
    /// Flush the socket (so a queued pong goes out).
    Flush,
    /// Do nothing and keep the session.
    Continue,
    /// End the session.
    End,
}

/// The text frame sent for an action: `reload`, or `message` with the
/// payload on the following lines.
pub open spec fn spec_action_frame(a: Action) -> Seq<char> {
    match a {
        Action::Reload => "reload"@,
        Action::Message(m) => "message\n"@ + m@,
    }
}

/// The events on which the session ends: the channel is closed, the peer is
/// gone or errored. A lag notification is not among them.
pub open spec fn spec_ws_disconnects(ev: &WsEvent) -> bool {
    match ev {
        WsEvent::RecvClosed => true,
        WsEvent::PeerNone => true,
        WsEvent::PeerClose => true,
        WsEvent::PeerReset => true,
        WsEvent::PeerError => true,
        _ => false,
    }
}

/// Builds the text frame for an action.
pub fn action_frame(a: &Action) -> (r: String)
    ensures
        r@ == spec_action_frame(*a),
{
    match a {
        Action::Reload => String::from_str("reload"),
        Action::Message(m) => {
            let mut v = str_chars("message\n");
            chars_append_str(&mut v, m.as_str());
            chars_to_string(&v)
        }
    }
}

/// Reacts to one session event: actions are forwarded as text frames, lag is
/// tolerated, pings are answered by a flush, and a gone or failed peer (or a
/// closed channel) ends the session.
pub fn ws_step(ev: WsEvent) -> (r: WsCommand)
    ensures
        (r is End) == spec_ws_disconnects(&ev),
        match ev {
            WsEvent::Recv(a) => (r matches WsCommand::Send(f) && f@ == spec_action_frame(a)),
            WsEvent::RecvClosed => r is End,
            WsEvent::RecvLagged(_) => r is Continue,
            WsEvent::PeerNone => r is End,
            WsEvent::PeerClose => r is End,
            WsEvent::PeerPing => r is Flush,
            WsEvent::PeerReset => r is End,
            WsEvent::PeerError => r is End,
            WsEvent::PeerOther => r is Continue,
        },
{
    match ev {
        WsEvent::Recv(a) => WsCommand::Send(action_frame(&a)),
        WsEvent::RecvClosed => WsCommand::End,
        WsEvent::RecvLagged(_) => WsCommand::Continue,
        WsEvent::PeerNone => WsCommand::End,
        WsEvent::PeerClose => WsCommand::End,
        WsEvent::PeerPing => WsCommand::Flush,
        WsEvent::PeerReset => WsCommand::End,
        WsEvent::PeerError => WsCommand::End,
        WsEvent::PeerOther => WsCommand::Continue,
    }
}

/// Lagged tolerance: a session that missed any number of publishes is not
/// disconnected, and a session that receives an action is simply sent the
/// action's frame; one session's lag never ends another session, since each
/// session reacts only to its own events.
pub proof fn lemma_lagged_tolerance(n: u64, a: Action)
    ensures
        !spec_ws_disconnects(&WsEvent::RecvLagged(n)),
        !spec_ws_disconnects(&WsEvent::Recv(a)),
        !spec_ws_disconnects(&WsEvent::PeerPing),
{
}

/// A session whose events are only actions, lag notifications, pings and
/// stray frames never ends.
pub proof fn lemma_session_survives(events: Seq<WsEvent>)
    requires
        forall|k: int|
            0 <= k < events.len() ==> match #[trigger] events[k] {
                WsEvent::Recv(_) => true,
                WsEvent::RecvLagged(_) => true,
                WsEvent::PeerPing => true,
                WsEvent::PeerOther => true,
                _ => false,
            },
    ensures
        forall|k: int| 0 <= k < events.len() ==> !spec_ws_disconnects(&#[trigger] events[k]),
{
}

} // verus!
