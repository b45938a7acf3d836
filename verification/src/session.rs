//! Per-connection session logic: the server-side rules applied to each
//! inbound envelope, the completion steps for requests that need the
//! auth/persistence gateway, the archiver's record selection, and the
//! shutdown notice.
//!
//! The surrounding tasks (socket reads, gateway calls, fan-out writes) feed
//! plain values in and carry the returned envelopes out; every decision is
//! made here.

use vstd::prelude::*;
use crate::model::{
    anonymous_user_view, entries_view, Message, MessageType, MessageView, PayloadView, ProtocolError, UserInfo,
    UserInfoView,
};

verus! {

/// At most this many history entries go into one response.
pub const HISTORY_LIMIT: usize = 20;

/// What the gateway knows of a user after a successful login or a
/// registration: id, stored name, and the stored colour if one exists.
#[derive(Debug, PartialEq, Eq)]
pub struct UserRecord {
    pub id: i32,
    pub username: String,
    pub color: Option<(u8, u8, u8)>,
}

/// Mathematical view of [`UserRecord`].
#[verifier::ext_equal]
pub ghost struct UserRecordView {
    pub id: i32,
    pub username: Seq<char>,
    pub color: Option<(u8, u8, u8)>,
}

impl View for UserRecord {
    type V = UserRecordView;

    open spec fn view(&self) -> UserRecordView {
        UserRecordView { id: self.id, username: self.username@, color: self.color }
    }
}

/// A stored colour, or white where none is recorded.
pub open spec fn resolved_color(c: Option<(u8, u8, u8)>) -> (u8, u8, u8) {
    match c {
        Some(x) => x,
        None => (255, 255, 255),
    }
}

/// Executable form of [`resolved_color`].
pub fn resolve_color(c: Option<(u8, u8, u8)>) -> (r: (u8, u8, u8))
    ensures
        r == resolved_color(c),
{
    match c {
        Some(x) => x,
        None => (255, 255, 255),
    }
}

/// What the session loop must do with one processed envelope.
#[derive(Debug, PartialEq, Eq)]
pub enum ServerAction {
    /// Fan the envelope out to every other session.
    Broadcast(Message),
    /// Broadcast the farewell, then drop this session from the registry and
    /// end its loop.
    Disconnect(Message),
    /// Ask the gateway to check these credentials, then call `finish_login`.
    NeedsLogin(String, String),
    /// Ask the gateway to create this user, then call `finish_register`.
    NeedsRegister(String, String, u8, u8, u8),
    /// Ask the gateway for recent history, then call `finish_history`.
    NeedsHistory,
}

/// Applies the server-side rules of one inbound envelope to the session's
/// authoritative user identity.
///
/// A name or colour change rebuilds the envelope so that its payload carries
/// the prior value while its author carries the new one.  Pass-through kinds
/// keep their payload and get this session's identity stamped as author.  A
/// response-only kind arriving inbound is a direction violation.
pub fn process_message(user: &mut UserInfo, incoming: Message) -> (r: Result<
    ServerAction,
    ProtocolError,
>)
    ensures
        match incoming@.message {
            PayloadView::UserNameChange(new_name) => {
                &&& final(user)@ == (UserInfoView { username: new_name, ..old(user)@ })
                &&& r matches Ok(a) && a matches ServerAction::Broadcast(out) && out@ == (
                MessageView {
                    message: PayloadView::UserNameChange(old(user)@.username),
                    user_info: final(user)@,
                    datetime: incoming@.datetime,
                })
            },
            PayloadView::UserColorChange(cr, cg, cb) => {
                &&& final(user)@ == (UserInfoView { color: (cr, cg, cb), ..old(user)@ })
                &&& r matches Ok(a) && a matches ServerAction::Broadcast(out) && out@ == (
                MessageView {
                    message: PayloadView::UserColorChange(
                        old(user)@.color.0,
                        old(user)@.color.1,
                        old(user)@.color.2,
                    ),
                    user_info: final(user)@,
                    datetime: incoming@.datetime,
                })
            },
            PayloadView::UserDisconnect => {
                &&& final(user)@ == old(user)@
                &&& r matches Ok(a) && a matches ServerAction::Disconnect(out) && out@ == (
                MessageView {
                    message: PayloadView::UserDisconnect,
                    user_info: old(user)@,
                    datetime: incoming@.datetime,
                })
            },
            PayloadView::LoginRequest(u, p) => {
                &&& final(user)@ == old(user)@
                &&& r matches Ok(a) && a matches ServerAction::NeedsLogin(ru, rp) && ru@ == u
                    && rp@ == p
            },
            PayloadView::RegisterRequest(u, p, cr, cg, cb) => {
                &&& final(user)@ == old(user)@
                &&& r matches Ok(a) && a matches ServerAction::NeedsRegister(ru, rp, rr, rg, rb)
                    && ru@ == u && rp@ == p && rr == cr && rg == cg && rb == cb
            },
            PayloadView::OldMessagesRequest => {
                &&& final(user)@ == old(user)@
                &&& r matches Ok(a) && a is NeedsHistory
            },
            PayloadView::LoginResponse(_) | PayloadView::RegisterResponse(_)
                | PayloadView::OldMessagesResponse(_) => {
                &&& final(user)@ == old(user)@
                &&& r matches Err(e) && e == ProtocolError::Direction
            },
            _ => {
                &&& final(user)@ == old(user)@
                &&& r matches Ok(a) && a matches ServerAction::Broadcast(out) && out@ == (
                MessageView {
                    message: incoming@.message,
                    user_info: old(user)@,
                    datetime: incoming@.datetime,
                })
            },
        },
{
    let datetime = incoming.datetime;
    match incoming.message {
        MessageType::UserNameChange(new_name) => {
            let prior = user.username.clone();
            user.username = new_name;
            Ok(
                ServerAction::Broadcast(
                    Message {
                        message: MessageType::UserNameChange(prior),
                        user_info: user.clone(),
                        datetime,
                    },
                ),
            )
        },
        MessageType::UserColorChange(cr, cg, cb) => {
            let prior = user.color;
            user.color = (cr, cg, cb);
            Ok(
                ServerAction::Broadcast(
                    Message {
                        message: MessageType::UserColorChange(prior.0, prior.1, prior.2),
                        user_info: user.clone(),
                        datetime,
                    },
                ),
            )
        },
        MessageType::UserDisconnect() => Ok(
            ServerAction::Disconnect(
                Message {
                    message: MessageType::UserDisconnect(),
                    user_info: user.clone(),
                    datetime,
                },
            ),
        ),
        MessageType::LoginRequest(u, p) => Ok(ServerAction::NeedsLogin(u, p)),
        MessageType::RegisterRequest(u, p, cr, cg, cb) => Ok(
            ServerAction::NeedsRegister(u, p, cr, cg, cb),
        ),
        MessageType::OldMessagesRequest() => Ok(ServerAction::NeedsHistory),
        MessageType::LoginResponse(_) => Err(ProtocolError::Direction),
        MessageType::RegisterResponse(_) => Err(ProtocolError::Direction),
        MessageType::OldMessagesResponse(_) => Err(ProtocolError::Direction),
        other => Ok(
            ServerAction::Broadcast(
                Message { message: other, user_info: user.clone(), datetime },
            ),
        ),
    }
}

/// Completes a login request once the gateway has answered.
///
/// On success the session's identity is set from the gateway's record (the
/// stored colour, or white where none is stored) and the direct reply
/// carries that identity both as payload and as author.  On failure the
/// session is untouched and the reply carries no user.
pub fn finish_login(user: &mut UserInfo, outcome: Option<UserRecord>, datetime: u64) -> (r:
    Message)
    ensures
        match outcome {
            Some(rec) => {
                &&& final(user)@ == (UserInfoView {
                    id: rec@.id,
                    username: rec@.username,
                    color: resolved_color(rec@.color),
                })
                &&& r@ == (MessageView {
                    message: PayloadView::LoginResponse(Some(final(user)@)),
                    user_info: final(user)@,
                    datetime,
                })
            },
            None => {
                &&& final(user)@ == old(user)@
                &&& r@ == (MessageView {
                    message: PayloadView::LoginResponse(None),
                    user_info: old(user)@,
                    datetime,
                })
            },
        },
{
    match outcome {
        Some(rec) => {
            user.id = rec.id;
            user.username = rec.username;
            user.color = resolve_color(rec.color);
            Message {
                message: MessageType::LoginResponse(Some(user.clone())),
                user_info: user.clone(),
                datetime,
            }
        },
        None => Message {
            message: MessageType::LoginResponse(None),
            user_info: user.clone(),
            datetime,
        },
    }
}

/// Completes a registration once the gateway has created the record: the
/// session's identity is set from it and the direct reply carries that
/// identity.
pub fn finish_register(user: &mut UserInfo, rec: UserRecord, datetime: u64) -> (r: Message)
    ensures
        final(user)@ == (UserInfoView {
            id: rec@.id,
            username: rec@.username,
            color: resolved_color(rec@.color),
        }),
        r@ == (MessageView {
            message: PayloadView::RegisterResponse(Some(final(user)@)),
            user_info: final(user)@,
            datetime,
        }),
{
    user.id = rec.id;
    user.username = rec.username;
    user.color = resolve_color(rec.color);
    Message {
        message: MessageType::RegisterResponse(Some(user.clone())),
        user_info: user.clone(),
        datetime,
    }
}

/// The wording of the reply when the gateway cannot serve a history request.
pub open spec fn history_failure_text() -> Seq<char> {
    "Could not fetch message history."@
}

/// Completes a history request once the gateway has answered.
///
/// The direct reply carries at most [`HISTORY_LIMIT`] of the entries the
/// gateway handed back, in their order, with this session's identity as
/// author; a gateway failure turns into a recoverable error for the
/// requester alone.
pub fn finish_history(user: &UserInfo, outcome: Option<Vec<(String, UserInfo)>>, datetime: u64)
    -> (r: Message)
    ensures
        match outcome {
            Some(entries) => {
                &&& r@.message matches PayloadView::OldMessagesResponse(es) && es == entries_view(
                    if entries@.len() <= HISTORY_LIMIT {
                        entries@
                    } else {
                        entries@.take(HISTORY_LIMIT as int)
                    },
                )
                &&& r@.message matches PayloadView::OldMessagesResponse(es) && es.len()
                    <= HISTORY_LIMIT
            },
            None => r@.message == PayloadView::RecoverableError(history_failure_text()),
        },
        r@.user_info == user@,
        r@.datetime == datetime,
{
    match outcome {
        Some(mut entries) => {
            if entries.len() > HISTORY_LIMIT {
                entries.truncate(HISTORY_LIMIT);
                assert(entries@.len() == HISTORY_LIMIT);
            }
            Message {
                message: MessageType::OldMessagesResponse(entries),
                user_info: user.clone(),
                datetime,
            }
        },
        None => Message {
            message: MessageType::RecoverableError("Could not fetch message history.".to_owned()),
            user_info: user.clone(),
            datetime,
        },
    }
}

/// Picks what the archiver must persist for one broadcast envelope: exactly
/// the text messages, stamped with this session's authoritative user id,
/// never with anything the client supplied.
pub fn archive_record(m: &Message, session: &UserInfo) -> (r: Option<(i32, String)>)
    ensures
        match m@.message {
            PayloadView::Text(t) => r matches Some(p) && p.0 == session@.id && p.1@ == t,
            _ => r is None,
        },
{
    match &m.message {
        MessageType::Text(t) => Some((session.id, t.clone())),
        _ => None,
    }
}

/// The wording sent to every session when the server shuts down.
pub open spec fn shutdown_text() -> Seq<char> {
    "Server is stopped. Try connect later."@
}

/// The farewell envelope each active session receives when the shutdown
/// signal fires.
pub fn shutdown_notice(datetime: u64) -> (r: Message)
    ensures
        r@.message == PayloadView::UnrecoverableError(shutdown_text()),
        r@.user_info == anonymous_user_view(),
        r@.datetime == datetime,
{
    Message::from_payload(
        MessageType::UnrecoverableError("Server is stopped. Try connect later.".to_owned()),
        datetime,
    )
}

} // verus!
