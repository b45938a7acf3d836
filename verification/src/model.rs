//! Data model of the relay protocol: user identity, message payloads, the
//! envelope that travels on the wire, and the error taxonomy.
//!
//! Each executable type has a mathematical view (`...View`) used by every
//! contract in the crate, so that two values carrying equal strings and byte
//! sequences are equal at the specification level.

use vstd::prelude::*;

verus! {

/// Identity and presentation of one user: database id (0 while the
/// connection is unauthenticated), display name, and name colour.
#[derive(Debug, PartialEq, Eq)]
pub struct UserInfo {
    pub id: i32,
    pub username: String,
    pub color: (u8, u8, u8),
}

/// Mathematical view of [`UserInfo`].
#[verifier::ext_equal]
pub ghost struct UserInfoView {
    pub id: i32,
    pub username: Seq<char>,
    pub color: (u8, u8, u8),
}

impl View for UserInfo {
    type V = UserInfoView;

    open spec fn view(&self) -> UserInfoView {
        UserInfoView { id: self.id, username: self.username@, color: self.color }
    }
}

impl Clone for UserInfo {
    fn clone(&self) -> (r: UserInfo)
        ensures
            r@ == self@,
    {
        UserInfo { id: self.id, username: self.username.clone(), color: self.color }
    }
}

/// The view of the user a session starts with: id 0, the anonymous display
/// name, white colour.
pub open spec fn anonymous_user_view() -> UserInfoView {
    UserInfoView { id: 0, username: "<anonymous user>"@, color: (255, 255, 255) }
}

impl UserInfo {
    /// The identity every session carries between accept and a successful
    /// login or registration.
    pub fn anonymous() -> (r: UserInfo)
        ensures
            r@ == anonymous_user_view(),
    {
        UserInfo { id: 0, username: "<anonymous user>".to_owned(), color: (255, 255, 255) }
    }
}

impl Default for UserInfo {
    fn default() -> (r: UserInfo)
        ensures
            r@ == anonymous_user_view(),
    {
        UserInfo::anonymous()
    }
}

/// One protocol payload; exactly one variant is active per envelope.
#[derive(Debug, PartialEq, Eq)]
pub enum MessageType {
    Text(String),
    Image(Vec<u8>),
    File(String, Vec<u8>),
    UserConnect(),
    UserDisconnect(),
    UserNameChange(String),
    UserColorChange(u8, u8, u8),
    RecoverableError(String),
    UnrecoverableError(String),
    LoginRequest(String, String),
    LoginResponse(Option<UserInfo>),
    RegisterRequest(String, String, u8, u8, u8),
    RegisterResponse(Option<UserInfo>),
    OldMessagesRequest(),
    OldMessagesResponse(Vec<(String, UserInfo)>),
}

/// Mathematical view of [`MessageType`].
#[verifier::ext_equal]
pub ghost enum PayloadView {
    Text(Seq<char>),
    Image(Seq<u8>),
    File(Seq<char>, Seq<u8>),
    UserConnect,
    UserDisconnect,
    UserNameChange(Seq<char>),
    UserColorChange(u8, u8, u8),
    RecoverableError(Seq<char>),
    UnrecoverableError(Seq<char>),
    LoginRequest(Seq<char>, Seq<char>),
    LoginResponse(Option<UserInfoView>),
    RegisterRequest(Seq<char>, Seq<char>, u8, u8, u8),
    RegisterResponse(Option<UserInfoView>),
    OldMessagesRequest,
    OldMessagesResponse(Seq<(Seq<char>, UserInfoView)>),
}

/// View of one history entry: message text and its author.
pub open spec fn history_entry_view(e: (String, UserInfo)) -> (Seq<char>, UserInfoView) {
    (e.0@, e.1@)
}

/// View of a history list.
pub open spec fn entries_view(es: Seq<(String, UserInfo)>) -> Seq<(Seq<char>, UserInfoView)> {
    es.map_values(|e: (String, UserInfo)| history_entry_view(e))
}

/// View of an optional user, used by the login and register responses.
pub open spec fn opt_user_view(u: Option<UserInfo>) -> Option<UserInfoView> {
    match u {
        Some(info) => Some(info@),
        None => None,
    }
}

impl View for MessageType {
    type V = PayloadView;

    open spec fn view(&self) -> PayloadView {
        match self {
            MessageType::Text(s) => PayloadView::Text(s@),
            MessageType::Image(b) => PayloadView::Image(b@),
            MessageType::File(n, b) => PayloadView::File(n@, b@),
            MessageType::UserConnect() => PayloadView::UserConnect,
            MessageType::UserDisconnect() => PayloadView::UserDisconnect,
            MessageType::UserNameChange(s) => PayloadView::UserNameChange(s@),
            MessageType::UserColorChange(r, g, b) => PayloadView::UserColorChange(*r, *g, *b),
            MessageType::RecoverableError(s) => PayloadView::RecoverableError(s@),
            MessageType::UnrecoverableError(s) => PayloadView::UnrecoverableError(s@),
            MessageType::LoginRequest(u, p) => PayloadView::LoginRequest(u@, p@),
            MessageType::LoginResponse(u) => PayloadView::LoginResponse(opt_user_view(*u)),
            MessageType::RegisterRequest(u, p, r, g, b) => PayloadView::RegisterRequest(
                u@,
                p@,
                *r,
                *g,
                *b,
            ),
            MessageType::RegisterResponse(u) => PayloadView::RegisterResponse(opt_user_view(*u)),
            MessageType::OldMessagesRequest() => PayloadView::OldMessagesRequest,
            MessageType::OldMessagesResponse(entries) => PayloadView::OldMessagesResponse(entries_view(entries@)),
        }
    }
}

/// One envelope on the wire: payload, author, and a timestamp in
/// milliseconds since the epoch (chosen by the sender).
#[derive(Debug, PartialEq, Eq)]
pub struct Message {
    pub message: MessageType,
    pub user_info: UserInfo,
    pub datetime: u64,
}

/// Mathematical view of [`Message`].
#[verifier::ext_equal]
pub ghost struct MessageView {
    pub message: PayloadView,
    pub user_info: UserInfoView,
    pub datetime: u64,
}

impl View for Message {
    type V = MessageView;

    open spec fn view(&self) -> MessageView {
        MessageView {
            message: self.message@,
            user_info: self.user_info@,
            datetime: self.datetime,
        }
    }
}

impl Message {
    /// An envelope as a client first builds it: the payload with the
    /// anonymous author (the server stamps the authoritative one).
    pub fn from_payload(message: MessageType, datetime: u64) -> (r: Message)
        ensures
            r@.message == message@,
            r@.user_info == anonymous_user_view(),
            r@.datetime == datetime,
    {
        Message { message, user_info: UserInfo::anonymous(), datetime }
    }
}

/// Errors of the protocol layer.  `Io` stands for a transport failure,
/// `Malformed` for bytes that decode to no known envelope (or an envelope
/// that cannot be framed), `Direction` for a response-only payload arriving
/// from a client.
#[derive(Debug, PartialEq, Eq, Structural, Clone, Copy)]
pub enum ProtocolError {
    Io,
    Malformed,
    Direction,
}

} // verus!
