//! Messages of the server and of peers, and how they are written and read.

use crate::text::{decimal, dotted, dotted_address, opt_text};
use crate::wire::{
    advance, agrees_view, as_slice, bind, clear, contents, frame, freeze, frozen,
    law_string_round_trip, law_u32_round_trip, law_u64_round_trip, lemma_append_nothing,
    lemma_join3, lemma_join4, lemma_join5, lemma_join6, lemma_join8, lemma_u32_round_trip,
    message_frame, new_buffer,
    put_slice, put_u32_le, read_string, read_u16, read_u32, read_u64, read_u8, remaining,
    step_string, step_u16, step_u32, step_u64, step_u8, string_field, take_bytes, u32_bytes,
    u32_value, u64_bytes, u64_value, write_string, Halt, Step, WireError,
};
use bytes::{Bytes, BytesMut};
use vstd::prelude::*;
use vstd::utf8::encode_utf8;

verus! {

/// Server message codes
#[derive(Debug, Clone, Copy, PartialEq, Eq, Structural)]
pub enum ServerCode {
    Login,
    SetWaitPort,
    GetPeerAddress,
    WatchUser,
    UnwatchUser,
    GetUserStatus,
    SayChatroom,
    JoinRoom,
    LeaveRoom,
    UserJoinedRoom,
    UserLeftRoom,
    ConnectToPeer,
    MessageUser,
    MessageAcked,
    FileSearch,
    SetStatus,
    ServerPing,
    SendUploadSpeed,
    SharedFoldersFiles,
    GetUserStats,
    QueuedDownloads,
    Relogged,
    UserSearch,
    AddUser,
    GetRecommendations,
    GetGlobalRecommendations,
    GetUserInterests,
    AdminCommand,
    PlaceInLineResponse,
    RoomAdded,
    RoomRemoved,
    RoomList,
    ExactFileSearch,
    AdminMessage,
    GlobalUserList,
    TunneledMessage,
    PrivilegedUsers,
    HaveNoParent,
    SearchParent,
    ParentMinSpeed,
    ParentSpeedRatio,
    ParentInactivityTimeout,
    SearchInactivityTimeout,
    MinParentsInCache,
    DistribAliveInterval,
    AddToPrivileged,
    CheckPrivileges,
    EmbeddedMessage,
    AcceptChildren,
    PossibleParents,
    WishlistSearch,
    WishlistInterval,
    GetSimilarUsers,
    GetItemRecommendations,
    GetItemSimilarUsers,
    RoomTickers,
    RoomTickerAdd,
    RoomTickerRemove,
    SetRoomTicker,
    AddHatedInterest,
    RemoveHatedInterest,
    RoomSearch,
    SendUploadSpeed2,
    UserPrivileged,
    GivePrivileges,
    NotifyPrivileges,
    AckNotifyPrivileges,
    BranchLevel,
    BranchRoot,
    ChildDepth,
    ResetDistributed,
    PrivateRoomUsers,
    PrivateRoomAddUser,
    PrivateRoomRemoveUser,
    PrivateRoomDropMembership,
    PrivateRoomDropOwnership,
    PrivateRoomUnknown,
    PrivateRoomAdded,
    PrivateRoomRemoved,
    PrivateRoomToggle,
    ChangePassword,
    PrivateRoomAddOperator,
    PrivateRoomRemoveOperator,
    PrivateRoomOperatorAdded,
    PrivateRoomOperatorRemoved,
    PrivateRoomOwned,
    MessageUsers,
    JoinGlobalRoom,
    LeaveGlobalRoom,
    GlobalRoomMessage,
    RelatedSearch,
    CantConnectToPeer,
    CantCreateRoom,
}

impl ServerCode {
    /// The number of the code on the wire.
    pub open spec fn number(self) -> u32 {
        match self {
            ServerCode::Login => 1,
            ServerCode::SetWaitPort => 2,
            ServerCode::GetPeerAddress => 3,
            ServerCode::WatchUser => 5,
            ServerCode::UnwatchUser => 6,
            ServerCode::GetUserStatus => 7,
            ServerCode::SayChatroom => 13,
            ServerCode::JoinRoom => 14,
            ServerCode::LeaveRoom => 15,
            ServerCode::UserJoinedRoom => 16,
            ServerCode::UserLeftRoom => 17,
            ServerCode::ConnectToPeer => 18,
            ServerCode::MessageUser => 22,
            ServerCode::MessageAcked => 23,
            ServerCode::FileSearch => 26,
            ServerCode::SetStatus => 28,
            ServerCode::ServerPing => 32,
            ServerCode::SendUploadSpeed => 34,
            ServerCode::SharedFoldersFiles => 35,
            ServerCode::GetUserStats => 36,
            ServerCode::QueuedDownloads => 40,
            ServerCode::Relogged => 41,
            ServerCode::UserSearch => 42,
            ServerCode::AddUser => 51,
            ServerCode::GetRecommendations => 54,
            ServerCode::GetGlobalRecommendations => 56,
            ServerCode::GetUserInterests => 57,
            ServerCode::AdminCommand => 58,
            ServerCode::PlaceInLineResponse => 60,
            ServerCode::RoomAdded => 62,
            ServerCode::RoomRemoved => 63,
            ServerCode::RoomList => 64,
            ServerCode::ExactFileSearch => 65,
            ServerCode::AdminMessage => 66,
            ServerCode::GlobalUserList => 67,
            ServerCode::TunneledMessage => 68,
            ServerCode::PrivilegedUsers => 69,
            ServerCode::HaveNoParent => 71,
            ServerCode::SearchParent => 73,
            ServerCode::ParentMinSpeed => 83,
            ServerCode::ParentSpeedRatio => 84,
            ServerCode::ParentInactivityTimeout => 86,
            ServerCode::SearchInactivityTimeout => 87,
            ServerCode::MinParentsInCache => 88,
            ServerCode::DistribAliveInterval => 90,
            ServerCode::AddToPrivileged => 91,
            ServerCode::CheckPrivileges => 92,
            ServerCode::EmbeddedMessage => 93,
            ServerCode::AcceptChildren => 100,
            ServerCode::PossibleParents => 102,
            ServerCode::WishlistSearch => 103,
            ServerCode::WishlistInterval => 104,
            ServerCode::GetSimilarUsers => 110,
            ServerCode::GetItemRecommendations => 111,
            ServerCode::GetItemSimilarUsers => 112,
            ServerCode::RoomTickers => 113,
            ServerCode::RoomTickerAdd => 114,
            ServerCode::RoomTickerRemove => 115,
            ServerCode::SetRoomTicker => 116,
            ServerCode::AddHatedInterest => 117,
            ServerCode::RemoveHatedInterest => 118,
            ServerCode::RoomSearch => 120,
            ServerCode::SendUploadSpeed2 => 121,
            ServerCode::UserPrivileged => 122,
            ServerCode::GivePrivileges => 123,
            ServerCode::NotifyPrivileges => 124,
            ServerCode::AckNotifyPrivileges => 125,
            ServerCode::BranchLevel => 126,
            ServerCode::BranchRoot => 127,
            ServerCode::ChildDepth => 129,
            ServerCode::ResetDistributed => 130,
            ServerCode::PrivateRoomUsers => 133,
            ServerCode::PrivateRoomAddUser => 134,
            ServerCode::PrivateRoomRemoveUser => 135,
            ServerCode::PrivateRoomDropMembership => 136,
            ServerCode::PrivateRoomDropOwnership => 137,
            ServerCode::PrivateRoomUnknown => 138,
            ServerCode::PrivateRoomAdded => 139,
            ServerCode::PrivateRoomRemoved => 140,
            ServerCode::PrivateRoomToggle => 141,
            ServerCode::ChangePassword => 142,
            ServerCode::PrivateRoomAddOperator => 143,
            ServerCode::PrivateRoomRemoveOperator => 144,
            ServerCode::PrivateRoomOperatorAdded => 145,
            ServerCode::PrivateRoomOperatorRemoved => 146,
            ServerCode::PrivateRoomOwned => 148,
            ServerCode::MessageUsers => 149,
            ServerCode::JoinGlobalRoom => 150,
            ServerCode::LeaveGlobalRoom => 151,
            ServerCode::GlobalRoomMessage => 152,
            ServerCode::RelatedSearch => 153,
            ServerCode::CantConnectToPeer => 1001,
            ServerCode::CantCreateRoom => 1003,
        }
    }

    /// The number of the code on the wire.
    pub fn code(self) -> (n: u32)
        ensures
            n == self.number(),
    {
        match self {
            ServerCode::Login => 1,
            ServerCode::SetWaitPort => 2,
            ServerCode::GetPeerAddress => 3,
            ServerCode::WatchUser => 5,
            ServerCode::UnwatchUser => 6,
            ServerCode::GetUserStatus => 7,
            ServerCode::SayChatroom => 13,
            ServerCode::JoinRoom => 14,
            ServerCode::LeaveRoom => 15,
            ServerCode::UserJoinedRoom => 16,
            ServerCode::UserLeftRoom => 17,
            ServerCode::ConnectToPeer => 18,
            ServerCode::MessageUser => 22,
            ServerCode::MessageAcked => 23,
            ServerCode::FileSearch => 26,
            ServerCode::SetStatus => 28,
            ServerCode::ServerPing => 32,
            ServerCode::SendUploadSpeed => 34,
            ServerCode::SharedFoldersFiles => 35,
            ServerCode::GetUserStats => 36,
            ServerCode::QueuedDownloads => 40,
            ServerCode::Relogged => 41,
            ServerCode::UserSearch => 42,
            ServerCode::AddUser => 51,
            ServerCode::GetRecommendations => 54,
            ServerCode::GetGlobalRecommendations => 56,
            ServerCode::GetUserInterests => 57,
            ServerCode::AdminCommand => 58,
            ServerCode::PlaceInLineResponse => 60,
            ServerCode::RoomAdded => 62,
            ServerCode::RoomRemoved => 63,
            ServerCode::RoomList => 64,
            ServerCode::ExactFileSearch => 65,
            ServerCode::AdminMessage => 66,
            ServerCode::GlobalUserList => 67,
            ServerCode::TunneledMessage => 68,
            ServerCode::PrivilegedUsers => 69,
            ServerCode::HaveNoParent => 71,
            ServerCode::SearchParent => 73,
            ServerCode::ParentMinSpeed => 83,
            ServerCode::ParentSpeedRatio => 84,
            ServerCode::ParentInactivityTimeout => 86,
            ServerCode::SearchInactivityTimeout => 87,
            ServerCode::MinParentsInCache => 88,
            ServerCode::DistribAliveInterval => 90,
            ServerCode::AddToPrivileged => 91,
            ServerCode::CheckPrivileges => 92,
            ServerCode::EmbeddedMessage => 93,
            ServerCode::AcceptChildren => 100,
            ServerCode::PossibleParents => 102,
            ServerCode::WishlistSearch => 103,
            ServerCode::WishlistInterval => 104,
            ServerCode::GetSimilarUsers => 110,
            ServerCode::GetItemRecommendations => 111,
            ServerCode::GetItemSimilarUsers => 112,
            ServerCode::RoomTickers => 113,
            ServerCode::RoomTickerAdd => 114,
            ServerCode::RoomTickerRemove => 115,
            ServerCode::SetRoomTicker => 116,
            ServerCode::AddHatedInterest => 117,
            ServerCode::RemoveHatedInterest => 118,
            ServerCode::RoomSearch => 120,
            ServerCode::SendUploadSpeed2 => 121,
            ServerCode::UserPrivileged => 122,
            ServerCode::GivePrivileges => 123,
            ServerCode::NotifyPrivileges => 124,
            ServerCode::AckNotifyPrivileges => 125,
            ServerCode::BranchLevel => 126,
            ServerCode::BranchRoot => 127,
            ServerCode::ChildDepth => 129,
            ServerCode::ResetDistributed => 130,
            ServerCode::PrivateRoomUsers => 133,
            ServerCode::PrivateRoomAddUser => 134,
            ServerCode::PrivateRoomRemoveUser => 135,
            ServerCode::PrivateRoomDropMembership => 136,
            ServerCode::PrivateRoomDropOwnership => 137,
            ServerCode::PrivateRoomUnknown => 138,
            ServerCode::PrivateRoomAdded => 139,
            ServerCode::PrivateRoomRemoved => 140,
            ServerCode::PrivateRoomToggle => 141,
            ServerCode::ChangePassword => 142,
            ServerCode::PrivateRoomAddOperator => 143,
            ServerCode::PrivateRoomRemoveOperator => 144,
            ServerCode::PrivateRoomOperatorAdded => 145,
            ServerCode::PrivateRoomOperatorRemoved => 146,
            ServerCode::PrivateRoomOwned => 148,
            ServerCode::MessageUsers => 149,
            ServerCode::JoinGlobalRoom => 150,
            ServerCode::LeaveGlobalRoom => 151,
            ServerCode::GlobalRoomMessage => 152,
            ServerCode::RelatedSearch => 153,
            ServerCode::CantConnectToPeer => 1001,
            ServerCode::CantCreateRoom => 1003,
        }
    }
}

/// Peer message codes
#[derive(Debug, Clone, Copy, PartialEq, Eq, Structural)]
pub enum PeerCode {
    GetSharedFileList,
    SharedFileList,
    FileSearchRequest,
    FileSearchResult,
    UserInfoRequest,
    UserInfoReply,
    FolderContentsRequest,
    FolderContentsReply,
    TransferRequest,
    TransferReply,
    PlaceholdUpload,
    QueueUpload,
    PlaceInQueueReply,
    UploadFailed,
    QueueFailed,
    PlaceInQueueRequest,
    UploadQueueNotification,
}

impl PeerCode {
    /// The number of the code on the wire.
    pub open spec fn number(self) -> u8 {
        match self {
            PeerCode::GetSharedFileList => 4,
            PeerCode::SharedFileList => 5,
            PeerCode::FileSearchRequest => 8,
            PeerCode::FileSearchResult => 9,
            PeerCode::UserInfoRequest => 15,
            PeerCode::UserInfoReply => 16,
            PeerCode::FolderContentsRequest => 36,
            PeerCode::FolderContentsReply => 37,
            PeerCode::TransferRequest => 40,
            PeerCode::TransferReply => 41,
            PeerCode::PlaceholdUpload => 42,
            PeerCode::QueueUpload => 43,
            PeerCode::PlaceInQueueReply => 44,
            PeerCode::UploadFailed => 46,
            PeerCode::QueueFailed => 50,
            PeerCode::PlaceInQueueRequest => 51,
            PeerCode::UploadQueueNotification => 52,
        }
    }

    /// The number of the code on the wire.
    pub fn code(self) -> (n: u8)
        ensures
            n == self.number(),
    {
        match self {
            PeerCode::GetSharedFileList => 4,
            PeerCode::SharedFileList => 5,
            PeerCode::FileSearchRequest => 8,
            PeerCode::FileSearchResult => 9,
            PeerCode::UserInfoRequest => 15,
            PeerCode::UserInfoReply => 16,
            PeerCode::FolderContentsRequest => 36,
            PeerCode::FolderContentsReply => 37,
            PeerCode::TransferRequest => 40,
            PeerCode::TransferReply => 41,
            PeerCode::PlaceholdUpload => 42,
            PeerCode::QueueUpload => 43,
            PeerCode::PlaceInQueueReply => 44,
            PeerCode::UploadFailed => 46,
            PeerCode::QueueFailed => 50,
            PeerCode::PlaceInQueueRequest => 51,
            PeerCode::UploadQueueNotification => 52,
        }
    }
}

/// No two server codes share a number.
pub proof fn law_server_codes_are_distinct(a: ServerCode, b: ServerCode)
    ensures
        a.number() == b.number() ==> a == b,
{
}

/// No two peer codes share a number.
pub proof fn law_peer_codes_are_distinct(a: PeerCode, b: PeerCode)
    ensures
        a.number() == b.number() ==> a == b,
{
}

/// File attributes for search results
#[derive(Debug, Clone, Copy, PartialEq, Eq, Structural)]
pub struct FileAttribute {
    pub attribute_type: u32,
    pub value: u32,
}

/// Search result file entry
#[derive(Debug, Clone)]
pub struct SearchFile {
    pub code: u8,
    pub filename: String,
    pub size: u64,
    pub extension: String,
    pub attributes: Vec<FileAttribute>,
}

/// A file entry with its texts as character sequences.
#[verifier::ext_equal]
pub struct SearchFileView {
    pub code: u8,
    pub filename: Seq<char>,
    pub size: u64,
    pub extension: Seq<char>,
    pub attributes: Seq<FileAttribute>,
}

impl View for SearchFile {
    type V = SearchFileView;

    open spec fn view(&self) -> SearchFileView {
        SearchFileView {
            code: self.code,
            filename: self.filename@,
            size: self.size,
            extension: self.extension@,
            attributes: self.attributes@,
        }
    }
}

/// The views of a sequence of file entries.
pub open spec fn file_views(files: Seq<SearchFile>) -> Seq<SearchFileView> {
    files.map_values(|f: SearchFile| f@)
}

/// The value of the first attribute of a kind, if there is one.
pub open spec fn first_attribute(attributes: Seq<FileAttribute>, kind: u32) -> Option<u32>
    decreases attributes.len(),
{
    if attributes.len() == 0 {
        None
    } else if attributes[0].attribute_type == kind {
        Some(attributes[0].value)
    } else {
        first_attribute(attributes.skip(1), kind)
    }
}

impl SearchFile {
    /// The value of the first attribute of a kind.
    fn attribute(&self, kind: u32) -> (r: Option<u32>)
        ensures
            r == first_attribute(self.attributes@, kind),
    {
        let mut i: usize = 0;
        assert(self.attributes@.skip(0) =~= self.attributes@);
        while i < self.attributes.len()
            invariant
                i <= self.attributes.len(),
                first_attribute(self.attributes@.skip(i as int), kind) == first_attribute(
                    self.attributes@,
                    kind,
                ),
            decreases self.attributes.len() - i,
        {
            let attr = self.attributes[i];
            assert(self.attributes@.skip(i as int)[0] == attr);
            assert(self.attributes@.skip(i as int).skip(1) =~= self.attributes@.skip(i + 1));
            if attr.attribute_type == kind {
                return Some(attr.value);
            }
            i = i + 1;
        }
        None
    }

    /// Get bitrate from attributes (if present)
    pub fn bitrate(&self) -> (r: Option<u32>)
        ensures
            r == first_attribute(self.attributes@, 0),
    {
        self.attribute(0)
    }

    /// Get duration from attributes (if present)
    pub fn duration(&self) -> (r: Option<u32>)
        ensures
            r == first_attribute(self.attributes@, 1),
    {
        self.attribute(1)
    }

    /// Get VBR flag from attributes (if present)
    pub fn is_vbr(&self) -> (r: Option<bool>)
        ensures
            r == match first_attribute(self.attributes@, 2) {
                Some(value) => Some(value == 1),
                None => None,
            },
    {
        match self.attribute(2) {
            Some(value) => Some(value == 1),
            None => None,
        }
    }
}

/// Server messages
#[derive(Debug, Clone)]
pub enum ServerMessage {
    Login {
        username: String,
        password: String,
        version: u32,
        md5_hash: String,
        minor_version: u32,
    },
    LoginResponse {
        success: bool,
        reason: String,
        greeting: Option<String>,
        ip: Option<String>,
    },
    SetWaitPort { port: u32 },
    GetPeerAddress { username: String },
    PeerAddress { username: String, ip: String, port: u16 },
    ConnectToPeer { token: u32, username: String, connection_type: String },
    FileSearch { token: u32, query: String },
    UserSearch { username: String, token: u32, query: String },
    SetStatus { status: u32 },
    SharedFoldersFiles { folders: u32, files: u32 },
    GetUserStats { username: String },
    UserStats {
        username: String,
        avg_speed: u32,
        uploads: u64,
        shared_files: u32,
        shared_folders: u32,
    },
    ServerPing,
    ServerPong,
    Relogged,
    MessageUser { username: String, message: String },
    MessageUserReceived { message_id: u32, timestamp: u32, username: String, message: String },
    RoomList,
    RoomListResponse {
        rooms: Vec<(String, u32)>,
        owned_private_rooms: Vec<(String, u32)>,
        private_rooms: Vec<(String, u32)>,
        operated_private_rooms: Vec<(String, u32)>,
    },
    /// Embedded message from distributed network (contains peer messages like search results)
    EmbeddedMessage { message_type: u8, data: Vec<u8> },
    /// Unknown message (for debugging)
    Unknown { code: u32, data: Vec<u8> },
    /// Server requests us to connect to a peer (indirect connection)
    ConnectToPeerRequest {
        username: String,
        connection_type: String,
        ip: String,
        port: u16,
        token: u32,
        privileged: bool,
    },
}

/// Named counts of rooms, with the names as character sequences.
pub open spec fn room_views(rooms: Seq<(String, u32)>) -> Seq<(Seq<char>, u32)> {
    rooms.map_values(|r: (String, u32)| (r.0@, r.1))
}

/// A server message with its texts as character sequences.
#[verifier::ext_equal]
pub enum ServerMessageView {
    Login {
        username: Seq<char>,
        password: Seq<char>,
        version: u32,
        md5_hash: Seq<char>,
        minor_version: u32,
    },
    LoginResponse {
        success: bool,
        reason: Seq<char>,
        greeting: Option<Seq<char>>,
        ip: Option<Seq<char>>,
    },
    SetWaitPort { port: u32 },
    GetPeerAddress { username: Seq<char> },
    PeerAddress { username: Seq<char>, ip: Seq<char>, port: u16 },
    ConnectToPeer { token: u32, username: Seq<char>, connection_type: Seq<char> },
    FileSearch { token: u32, query: Seq<char> },
    UserSearch { username: Seq<char>, token: u32, query: Seq<char> },
    SetStatus { status: u32 },
    SharedFoldersFiles { folders: u32, files: u32 },
    GetUserStats { username: Seq<char> },
    UserStats {
        username: Seq<char>,
        avg_speed: u32,
        uploads: u64,
        shared_files: u32,
        shared_folders: u32,
    },
    ServerPing,
    ServerPong,
    Relogged,
    MessageUser { username: Seq<char>, message: Seq<char> },
    MessageUserReceived {
        message_id: u32,
        timestamp: u32,
        username: Seq<char>,
        message: Seq<char>,
    },
    RoomList,
    RoomListResponse {
        rooms: Seq<(Seq<char>, u32)>,
        owned_private_rooms: Seq<(Seq<char>, u32)>,
        private_rooms: Seq<(Seq<char>, u32)>,
        operated_private_rooms: Seq<(Seq<char>, u32)>,
    },
    EmbeddedMessage { message_type: u8, data: Seq<u8> },
    Unknown { code: u32, data: Seq<u8> },
    ConnectToPeerRequest {
        username: Seq<char>,
        connection_type: Seq<char>,
        ip: Seq<char>,
        port: u16,
        token: u32,
        privileged: bool,
    },
}

impl View for ServerMessage {
    type V = ServerMessageView;

    open spec fn view(&self) -> ServerMessageView {
        match *self {
            ServerMessage::Login { username, password, version, md5_hash, minor_version } => {
                ServerMessageView::Login {
                    username: username@,
                    password: password@,
                    version,
                    md5_hash: md5_hash@,
                    minor_version,
                }
            },
            ServerMessage::LoginResponse { success, reason, greeting, ip } => {
                ServerMessageView::LoginResponse {
                    success,
                    reason: reason@,
                    greeting: opt_text(greeting),
                    ip: opt_text(ip),
                }
            },
            ServerMessage::SetWaitPort { port } => ServerMessageView::SetWaitPort { port },
            ServerMessage::GetPeerAddress { username } => ServerMessageView::GetPeerAddress {
                username: username@,
            },
            ServerMessage::PeerAddress { username, ip, port } => ServerMessageView::PeerAddress {
                username: username@,
                ip: ip@,
                port,
            },
            ServerMessage::ConnectToPeer { token, username, connection_type } => {
                ServerMessageView::ConnectToPeer {
                    token,
                    username: username@,
                    connection_type: connection_type@,
                }
            },
            ServerMessage::FileSearch { token, query } => ServerMessageView::FileSearch {
                token,
                query: query@,
            },
            ServerMessage::UserSearch { username, token, query } => {
                ServerMessageView::UserSearch { username: username@, token, query: query@ }
            },
            ServerMessage::SetStatus { status } => ServerMessageView::SetStatus { status },
            ServerMessage::SharedFoldersFiles { folders, files } => {
                ServerMessageView::SharedFoldersFiles { folders, files }
            },
            ServerMessage::GetUserStats { username } => ServerMessageView::GetUserStats {
                username: username@,
            },
            ServerMessage::UserStats {
                username,
                avg_speed,
                uploads,
                shared_files,
                shared_folders,
            } => ServerMessageView::UserStats {
                username: username@,
                avg_speed,
                uploads,
                shared_files,
                shared_folders,
            },
            ServerMessage::ServerPing => ServerMessageView::ServerPing,
            ServerMessage::ServerPong => ServerMessageView::ServerPong,
            ServerMessage::Relogged => ServerMessageView::Relogged,
            ServerMessage::MessageUser { username, message } => ServerMessageView::MessageUser {
                username: username@,
                message: message@,
            },
            ServerMessage::MessageUserReceived { message_id, timestamp, username, message } => {
                ServerMessageView::MessageUserReceived {
                    message_id,
                    timestamp,
                    username: username@,
                    message: message@,
                }
            },
            ServerMessage::RoomList => ServerMessageView::RoomList,
            ServerMessage::RoomListResponse {
                rooms,
                owned_private_rooms,
                private_rooms,
                operated_private_rooms,
            } => ServerMessageView::RoomListResponse {
                rooms: room_views(rooms@),
                owned_private_rooms: room_views(owned_private_rooms@),
                private_rooms: room_views(private_rooms@),
                operated_private_rooms: room_views(operated_private_rooms@),
            },
            ServerMessage::EmbeddedMessage { message_type, data } => {
                ServerMessageView::EmbeddedMessage { message_type, data: data@ }
            },
            ServerMessage::Unknown { code, data } => ServerMessageView::Unknown {
                code,
                data: data@,
            },
            ServerMessage::ConnectToPeerRequest {
                username,
                connection_type,
                ip,
                port,
                token,
                privileged,
            } => ServerMessageView::ConnectToPeerRequest {
                username: username@,
                connection_type: connection_type@,
                ip: ip@,
                port,
                token,
                privileged,
            },
        }
    }
}

/// Peer messages
#[derive(Debug, Clone)]
pub enum PeerMessage {
    GetSharedFileList,
    SharedFileList { files: Vec<(String, u64)> },
    FileSearchRequest { token: u32, query: String },
    FileSearchResult {
        username: String,
        token: u32,
        files: Vec<SearchFile>,
        has_slots: bool,
        avg_speed: u32,
        queue_length: u64,
    },
    /// The direction is 0 for a download and 1 for an upload.
    TransferRequest { direction: u32, token: u32, filename: String },
    TransferReply { token: u32, allowed: bool, filesize: u64 },
    QueueUpload { filename: String },
    PlaceInQueueReply { filename: String, place: u32 },
    UploadFailed { filename: String },
}

/// A peer message with its texts as character sequences.
#[verifier::ext_equal]
pub enum PeerMessageView {
    GetSharedFileList,
    SharedFileList { files: Seq<(Seq<char>, u64)> },
    FileSearchRequest { token: u32, query: Seq<char> },
    FileSearchResult {
        username: Seq<char>,
        token: u32,
        files: Seq<SearchFileView>,
        has_slots: bool,
        avg_speed: u32,
        queue_length: u64,
    },
    TransferRequest { direction: u32, token: u32, filename: Seq<char> },
    TransferReply { token: u32, allowed: bool, filesize: u64 },
    QueueUpload { filename: Seq<char> },
    PlaceInQueueReply { filename: Seq<char>, place: u32 },
    UploadFailed { filename: Seq<char> },
}

impl View for PeerMessage {
    type V = PeerMessageView;

    open spec fn view(&self) -> PeerMessageView {
        match *self {
            PeerMessage::GetSharedFileList => PeerMessageView::GetSharedFileList,
            PeerMessage::SharedFileList { files } => PeerMessageView::SharedFileList {
                files: files@.map_values(|f: (String, u64)| (f.0@, f.1)),
            },
            PeerMessage::FileSearchRequest { token, query } => PeerMessageView::FileSearchRequest {
                token,
                query: query@,
            },
            PeerMessage::FileSearchResult {
                username,
                token,
                files,
                has_slots,
                avg_speed,
                queue_length,
            } => PeerMessageView::FileSearchResult {
                username: username@,
                token,
                files: file_views(files@),
                has_slots,
                avg_speed,
                queue_length,
            },
            PeerMessage::TransferRequest { direction, token, filename } => {
                PeerMessageView::TransferRequest { direction, token, filename: filename@ }
            },
            PeerMessage::TransferReply { token, allowed, filesize } => {
                PeerMessageView::TransferReply { token, allowed, filesize }
            },
            PeerMessage::QueueUpload { filename } => PeerMessageView::QueueUpload {
                filename: filename@,
            },
            PeerMessage::PlaceInQueueReply { filename, place } => {
                PeerMessageView::PlaceInQueueReply { filename: filename@, place }
            },
            PeerMessage::UploadFailed { filename } => PeerMessageView::UploadFailed {
                filename: filename@,
            },
        }
    }
}

// ---------------------------------------------------------------------------
// Strings
// ---------------------------------------------------------------------------
/// Encode a string (length-prefixed)
pub fn encode_string(buf: &mut BytesMut, s: &str)
    ensures
        contents(*final(buf)) == contents(*old(buf)) + string_field(s@),
{
    write_string(buf, s);
}

/// Decode a string (length-prefixed)
pub fn decode_string(buf: &mut BytesMut) -> (r: Result<String, WireError>)
    ensures
        match r {
            Ok(s) => step_string(contents(*old(buf))) == Step::Done(s@, contents(*final(buf))),
            Err(e) => step_string(contents(*old(buf))) == Step::<Seq<char>>::Failed(
                e,
                contents(*final(buf)),
            ),
        },
{
    match read_string(buf) {
        Ok(s) => Ok(s),
        Err(Halt::Failed(e)) => Err(e),
        Err(Halt::Short) => Err(WireError::StringLength),
    }
}

// ---------------------------------------------------------------------------
// Writing
// ---------------------------------------------------------------------------
/// A message that can be put on the wire.
pub trait MessageEncoder {
    /// The frame of the message, or `None` where the message is only ever received.
    spec fn encoded(&self) -> Option<Seq<u8>>;

    fn encode(&self) -> (r: Result<Bytes, WireError>)
        ensures
            match r {
                Ok(data) => self.encoded() == Some(frozen(data)),
                Err(e) => self.encoded() is None && e == WireError::NotEncodable,
            },
    ;
}

/// The code and the data of a server message that this client sends.
pub open spec fn server_payload(message: ServerMessageView) -> Option<(ServerCode, Seq<u8>)> {
    match message {
        ServerMessageView::Login { username, password, version, md5_hash, minor_version } => Some(
            (
                ServerCode::Login,
                string_field(username) + string_field(password) + u32_bytes(version)
                    + string_field(md5_hash) + u32_bytes(minor_version),
            ),
        ),
        ServerMessageView::SetWaitPort { port } => Some((ServerCode::SetWaitPort, u32_bytes(port))),
        ServerMessageView::GetPeerAddress { username } => Some(
            (ServerCode::GetPeerAddress, string_field(username)),
        ),
        ServerMessageView::ConnectToPeer { token, username, connection_type } => Some(
            (
                ServerCode::ConnectToPeer,
                u32_bytes(token) + string_field(username) + string_field(connection_type),
            ),
        ),
        ServerMessageView::FileSearch { token, query } => Some(
            (ServerCode::FileSearch, u32_bytes(token) + string_field(query)),
        ),
        ServerMessageView::UserSearch { username, token, query } => Some(
            (
                ServerCode::UserSearch,
                string_field(username) + u32_bytes(token) + string_field(query),
            ),
        ),
        ServerMessageView::SetStatus { status } => Some((ServerCode::SetStatus, u32_bytes(status))),
        ServerMessageView::SharedFoldersFiles { folders, files } => Some(
            (ServerCode::SharedFoldersFiles, u32_bytes(folders) + u32_bytes(files)),
        ),
        ServerMessageView::GetUserStats { username } => Some(
            (ServerCode::GetUserStats, string_field(username)),
        ),
        ServerMessageView::ServerPing => Some((ServerCode::ServerPing, Seq::empty())),
        ServerMessageView::MessageUser { username, message } => Some(
            (ServerCode::MessageUser, string_field(username) + string_field(message)),
        ),
        ServerMessageView::RoomList => Some((ServerCode::RoomList, Seq::empty())),
        _ => None,
    }
}

/// The code and the data of a peer message that this client sends.
pub open spec fn peer_payload(message: PeerMessageView) -> Option<(PeerCode, Seq<u8>)> {
    match message {
        PeerMessageView::FileSearchRequest { token, query } => Some(
            (PeerCode::FileSearchRequest, u32_bytes(token) + string_field(query)),
        ),
        PeerMessageView::TransferRequest { direction, token, filename } => Some(
            (
                PeerCode::TransferRequest,
                u32_bytes(direction) + u32_bytes(token) + string_field(filename),
            ),
        ),
        PeerMessageView::QueueUpload { filename } => Some(
            (PeerCode::QueueUpload, string_field(filename)),
        ),
        _ => None,
    }
}

/// Puts length and code before the data of a message.
fn seal(code: u32, data: &BytesMut) -> (r: Bytes)
    ensures
        frozen(r) == frame(code, contents(*data)),
{
    let message = message_frame(code, as_slice(data));
    let mut sealed = new_buffer();
    put_slice(&mut sealed, message.as_slice());
    assert(Seq::<u8>::empty() + message@ =~= message@);
    freeze(sealed)
}

impl MessageEncoder for ServerMessage {
    open spec fn encoded(&self) -> Option<Seq<u8>> {
        match server_payload(self@) {
            Some((code, data)) => Some(frame(code.number(), data)),
            None => None,
        }
    }

    fn encode(&self) -> (r: Result<Bytes, WireError>) {
        let mut buf = new_buffer();
        let code = match self {
            ServerMessage::Login { username, password, version, md5_hash, minor_version } => {
                encode_string(&mut buf, username.as_str());
                encode_string(&mut buf, password.as_str());
                put_u32_le(&mut buf, *version);
                encode_string(&mut buf, md5_hash.as_str());
                put_u32_le(&mut buf, *minor_version);
                ServerCode::Login
            },
            ServerMessage::SetWaitPort { port } => {
                put_u32_le(&mut buf, *port);
                ServerCode::SetWaitPort
            },
            ServerMessage::GetPeerAddress { username } => {
                encode_string(&mut buf, username.as_str());
                ServerCode::GetPeerAddress
            },
            ServerMessage::ConnectToPeer { token, username, connection_type } => {
                put_u32_le(&mut buf, *token);
                encode_string(&mut buf, username.as_str());
                encode_string(&mut buf, connection_type.as_str());
                ServerCode::ConnectToPeer
            },
            ServerMessage::FileSearch { token, query } => {
                put_u32_le(&mut buf, *token);
                encode_string(&mut buf, query.as_str());
                ServerCode::FileSearch
            },
            ServerMessage::UserSearch { username, token, query } => {
                encode_string(&mut buf, username.as_str());
                put_u32_le(&mut buf, *token);
                encode_string(&mut buf, query.as_str());
                ServerCode::UserSearch
            },
            ServerMessage::SetStatus { status } => {
                put_u32_le(&mut buf, *status);
                ServerCode::SetStatus
            },
            ServerMessage::SharedFoldersFiles { folders, files } => {
                put_u32_le(&mut buf, *folders);
                put_u32_le(&mut buf, *files);
                ServerCode::SharedFoldersFiles
            },
            ServerMessage::GetUserStats { username } => {
                encode_string(&mut buf, username.as_str());
                ServerCode::GetUserStats
            },
            ServerMessage::ServerPing => ServerCode::ServerPing,
            ServerMessage::MessageUser { username, message } => {
                encode_string(&mut buf, username.as_str());
                encode_string(&mut buf, message.as_str());
                ServerCode::MessageUser
            },
            ServerMessage::RoomList => ServerCode::RoomList,
            _ => return Err(WireError::NotEncodable),
        };
        assert(contents(buf) =~= server_payload(self@)->Some_0.1);
        Ok(seal(code.code(), &buf))
    }
}

impl MessageEncoder for PeerMessage {
    open spec fn encoded(&self) -> Option<Seq<u8>> {
        match peer_payload(self@) {
            Some((code, data)) => Some(frame(code.number() as u32, data)),
            None => None,
        }
    }

    fn encode(&self) -> (r: Result<Bytes, WireError>) {
        let mut buf = new_buffer();
        let code = match self {
            PeerMessage::FileSearchRequest { token, query } => {
                put_u32_le(&mut buf, *token);
                encode_string(&mut buf, query.as_str());
                PeerCode::FileSearchRequest
            },
            PeerMessage::TransferRequest { direction, token, filename } => {
                put_u32_le(&mut buf, *direction);
                put_u32_le(&mut buf, *token);
                encode_string(&mut buf, filename.as_str());
                PeerCode::TransferRequest
            },
            PeerMessage::QueueUpload { filename } => {
                encode_string(&mut buf, filename.as_str());
                PeerCode::QueueUpload
            },
            _ => return Err(WireError::NotEncodable),
        };
        assert(contents(buf) =~= peer_payload(self@)->Some_0.1);
        Ok(seal(code.code() as u32, &buf))
    }
}

// ---------------------------------------------------------------------------
// Reading
// ---------------------------------------------------------------------------
/// The result `r` of looking for a message, which left `rest`, is what `step` says.
pub open spec fn agrees_opt<T: View>(
    r: Result<Option<T>, Halt>,
    rest: Seq<u8>,
    step: Step<Option<T::V>>,
) -> bool {
    match r {
        Ok(Some(v)) => step == Step::Done(Some(v@), rest),
        Ok(None) => step == Step::Done(None::<T::V>, rest),
        Err(Halt::Failed(e)) => step == Step::<Option<T::V>>::Failed(e, rest),
        Err(Halt::Short) => step == Step::<Option<T::V>>::Short,
    }
}

/// A message that can be taken off the wire.
pub trait MessageDecoder: Sized + View {
    /// What looking for a message in a buffer comes to: none yet and nothing consumed,
    /// or a message and what is left after it.
    spec fn decoding(b: Seq<u8>) -> Step<Option<<Self as View>::V>>;

    /// Takes a message off the buffer. A buffer in which a field of fixed size reaches
    /// past the end is not to be given; `try_decode` tells it apart.
    fn decode(buf: &mut BytesMut) -> (r: Result<Option<Self>, WireError>)
        requires
            !(Self::decoding(contents(*old(buf))) is Short),
        ensures
            match r {
                Ok(Some(m)) => Self::decoding(contents(*old(buf))) == Step::Done(
                    Some(m@),
                    contents(*final(buf)),
                ),
                Ok(None) => Self::decoding(contents(*old(buf))) == Step::Done(
                    None::<<Self as View>::V>,
                    contents(*final(buf)),
                ),
                Err(e) => Self::decoding(contents(*old(buf))) == Step::<
                    Option<<Self as View>::V>,
                >::Failed(e, contents(*final(buf))),
            },
    ;
}

/// Whether a buffer holds a whole frame, as far as its length field says.
pub open spec fn holds_frame(b: Seq<u8>) -> bool {
    b.len() >= 4 && b.len() >= 4 + u32_value(b)
}

/// Looks for a frame and reads what follows its code with `body`. Without a whole frame
/// nothing is consumed. `body` sees all that follows, not only this frame.
pub open spec fn framed<T>(
    b: Seq<u8>,
    body: spec_fn(u32, Seq<u8>) -> Step<T>,
) -> Step<Option<T>> {
    if !holds_frame(b) {
        Step::Done(None, b)
    } else if b.skip(4).len() < 4 {
        Step::Failed(WireError::MessageTooShort, b.skip(4))
    } else {
        match body(u32_value(b.skip(4)), b.skip(4).skip(4)) {
            Step::Done(m, rest) => Step::Done(Some(m), rest),
            Step::Failed(e, rest) => Step::Failed(e, rest),
            Step::Short => Step::Short,
        }
    }
}

/// A string that may be missing: `None` with fewer than four bytes left, and the empty
/// string where the bytes do not make one.
pub open spec fn optional_string(b: Seq<u8>) -> (Option<Seq<char>>, Seq<u8>) {
    if b.len() < 4 {
        (None, b)
    } else {
        match step_string(b) {
            Step::Done(s, rest) => (Some(s), rest),
            Step::Failed(e, rest) => (Some(Seq::empty()), rest),
            Step::Short => (None, b),
        }
    }
}

/// An address of four bytes, the last one written first.
pub open spec fn step_address(b: Seq<u8>) -> Step<Seq<char>> {
    if b.len() < 4 {
        Step::Short
    } else {
        Step::Done(dotted(b[3], b[2], b[1], b[0]), b.skip(4))
    }
}

/// The answer to a login, after its code.
pub open spec fn login_response(b: Seq<u8>) -> Step<ServerMessageView> {
    bind(
        step_u8(b),
        |success: u8, b: Seq<u8>|
            bind(
                step_string(b),
                |reason: Seq<char>, b: Seq<u8>|
                    if success != 0 {
                        let (greeting, after) = optional_string(b);
                        Step::Done(
                            ServerMessageView::LoginResponse {
                                success: true,
                                reason,
                                greeting,
                                ip: optional_string(after).0,
                            },
                            Seq::empty(),
                        )
                    } else {
                        Step::Done(
                            ServerMessageView::LoginResponse {
                                success: false,
                                reason,
                                greeting: None,
                                ip: None,
                            },
                            b,
                        )
                    },
            ),
    )
}

/// The address of a peer, after its code.
pub open spec fn peer_address(b: Seq<u8>) -> Step<ServerMessageView> {
    bind(
        step_string(b),
        |username: Seq<char>, b: Seq<u8>|
            bind(
                step_string(b),
                |ip: Seq<char>, b: Seq<u8>|
                    bind(
                        step_u16(b),
                        |port: u16, b: Seq<u8>|
                            Step::Done(ServerMessageView::PeerAddress { username, ip, port }, b),
                    ),
            ),
    )
}

/// The statistics of a user, after their code.
pub open spec fn user_stats(b: Seq<u8>) -> Step<ServerMessageView> {
    bind(
        step_string(b),
        |username: Seq<char>, b: Seq<u8>|
            bind(
                step_u32(b),
                |avg_speed: u32, b: Seq<u8>|
                    bind(
                        step_u64(b),
                        |uploads: u64, b: Seq<u8>|
                            bind(
                                step_u32(b),
                                |shared_files: u32, b: Seq<u8>|
                                    bind(
                                        step_u32(b),
                                        |shared_folders: u32, b: Seq<u8>|
                                            Step::Done(
                                                ServerMessageView::UserStats {
                                                    username,
                                                    avg_speed,
                                                    uploads,
                                                    shared_files,
                                                    shared_folders,
                                                },
                                                b,
                                            ),
                                    ),
                            ),
                    ),
            ),
    )
}

/// A private message, after its code.
pub open spec fn user_message(b: Seq<u8>) -> Step<ServerMessageView> {
    bind(
        step_u32(b),
        |message_id: u32, b: Seq<u8>|
            bind(
                step_u32(b),
                |timestamp: u32, b: Seq<u8>|
                    bind(
                        step_string(b),
                        |username: Seq<char>, b: Seq<u8>|
                            bind(
                                step_string(b),
                                |message: Seq<char>, b: Seq<u8>|
                                    Step::Done(
                                        ServerMessageView::MessageUserReceived {
                                            message_id,
                                            timestamp,
                                            username,
                                            message,
                                        },
                                        b,
                                    ),
                            ),
                    ),
            ),
    )
}

/// A request to connect to a peer, after its code. The port is cut to 16 bits; the last
/// byte may be missing and counts as not privileged.
pub open spec fn connect_request(b: Seq<u8>) -> Step<ServerMessageView> {
    bind(
        step_string(b),
        |username: Seq<char>, b: Seq<u8>|
            bind(
                step_string(b),
                |connection_type: Seq<char>, b: Seq<u8>|
                    bind(
                        step_address(b),
                        |ip: Seq<char>, b: Seq<u8>|
                            bind(
                                step_u32(b),
                                |port: u32, b: Seq<u8>|
                                    bind(
                                        step_u32(b),
                                        |token: u32, b: Seq<u8>|
                                            Step::Done(
                                                ServerMessageView::ConnectToPeerRequest {
                                                    username,
                                                    connection_type,
                                                    ip,
                                                    port: (port % 65536) as u16,
                                                    token,
                                                    privileged: b.len() >= 1 && b[0] != 0,
                                                },
                                                if b.len() >= 1 {
                                                    b.skip(1)
                                                } else {
                                                    b
                                                },
                                            ),
                                    ),
                            ),
                    ),
            ),
    )
}

/// A message of the distributed network, after its code: all that is left belongs to it.
pub open spec fn embedded(b: Seq<u8>) -> Step<ServerMessageView> {
    bind(
        step_u8(b),
        |message_type: u8, b: Seq<u8>|
            Step::Done(ServerMessageView::EmbeddedMessage { message_type, data: b }, Seq::empty()),
    )
}

/// The server message that follows a code.
pub open spec fn server_body(code: u32, b: Seq<u8>) -> Step<ServerMessageView> {
    if code == 1 {
        login_response(b)
    } else if code == 3 {
        peer_address(b)
    } else if code == 7 {
        user_stats(b)
    } else if code == 18 {
        connect_request(b)
    } else if code == 22 {
        user_message(b)
    } else if code == 32 {
        Step::Done(ServerMessageView::ServerPong, b)
    } else if code == 41 {
        Step::Done(ServerMessageView::Relogged, b)
    } else if code == 93 {
        embedded(b)
    } else {
        Step::Done(ServerMessageView::Unknown { code, data: b }, Seq::empty())
    }
}

/// Reads a string that may be missing.
fn read_optional_string(buf: &mut BytesMut) -> (r: Option<String>)
    ensures
        (opt_text(r), contents(*final(buf))) == optional_string(contents(*old(buf))),
{
    if remaining(buf) < 4 {
        return None;
    }
    match read_string(buf) {
        Ok(s) => Some(s),
        Err(_) => {
            let empty = String::new();
            assert(empty@ =~= Seq::<char>::empty());
            Some(empty)
        },
    }
}

/// Reads an address of four bytes.
pub fn read_address(buf: &mut BytesMut) -> (r: Result<String, Halt>)
    ensures
        agrees_view(r, contents(*final(buf)), step_address(contents(*old(buf)))),
{
    let ghost b = contents(*buf);
    let first: u8 = read_u8(buf)?;
    let second: u8 = read_u8(buf)?;
    let third: u8 = read_u8(buf)?;
    let fourth: u8 = read_u8(buf)?;
    assert(b.skip(1).skip(1).skip(1).skip(1) =~= b.skip(4));
    Ok(dotted_address(fourth, third, second, first))
}

fn read_login_response(buf: &mut BytesMut) -> (r: Result<ServerMessage, Halt>)
    ensures
        agrees_view(r, contents(*final(buf)), login_response(contents(*old(buf)))),
{
    let success: bool = read_u8(buf)? != 0;
    let reason = read_string(buf)?;
    if success {
        let greeting = read_optional_string(buf);
        let ip = read_optional_string(buf);
        clear(buf);
        Ok(ServerMessage::LoginResponse { success, reason, greeting, ip })
    } else {
        Ok(ServerMessage::LoginResponse { success, reason, greeting: None, ip: None })
    }
}

fn read_peer_address(buf: &mut BytesMut) -> (r: Result<ServerMessage, Halt>)
    ensures
        agrees_view(r, contents(*final(buf)), peer_address(contents(*old(buf)))),
{
    let username = read_string(buf)?;
    let ip = read_string(buf)?;
    let port: u16 = read_u16(buf)?;
    Ok(ServerMessage::PeerAddress { username, ip, port })
}

fn read_user_stats(buf: &mut BytesMut) -> (r: Result<ServerMessage, Halt>)
    ensures
        agrees_view(r, contents(*final(buf)), user_stats(contents(*old(buf)))),
{
    let username = read_string(buf)?;
    let avg_speed: u32 = read_u32(buf)?;
    let uploads: u64 = read_u64(buf)?;
    let shared_files: u32 = read_u32(buf)?;
    let shared_folders: u32 = read_u32(buf)?;
    Ok(ServerMessage::UserStats { username, avg_speed, uploads, shared_files, shared_folders })
}

fn read_user_message(buf: &mut BytesMut) -> (r: Result<ServerMessage, Halt>)
    ensures
        agrees_view(r, contents(*final(buf)), user_message(contents(*old(buf)))),
{
    let message_id: u32 = read_u32(buf)?;
    let timestamp: u32 = read_u32(buf)?;
    let username = read_string(buf)?;
    let message = read_string(buf)?;
    Ok(ServerMessage::MessageUserReceived { message_id, timestamp, username, message })
}

/// Cuts a port to 16 bits.
fn low16(n: u32) -> (r: u16)
    ensures
        r == n % 65536,
{
    assert(n as u16 == n % 65536) by (bit_vector);
    n as u16
}

fn read_connect_request(buf: &mut BytesMut) -> (r: Result<ServerMessage, Halt>)
    ensures
        agrees_view(r, contents(*final(buf)), connect_request(contents(*old(buf)))),
{
    let username = read_string(buf)?;
    let connection_type = read_string(buf)?;
    let ip = read_address(buf)?;
    let port: u16 = low16(read_u32(buf)?);
    let token: u32 = read_u32(buf)?;
    let privileged: bool = if remaining(buf) >= 1 {
        read_u8(buf)? != 0
    } else {
        false
    };
    Ok(
        ServerMessage::ConnectToPeerRequest {
            username,
            connection_type,
            ip,
            port,
            token,
            privileged,
        },
    )
}

/// Takes all that is left.
fn read_rest(buf: &mut BytesMut) -> (data: Vec<u8>)
    ensures
        data@ == contents(*old(buf)),
        contents(*final(buf)) == Seq::<u8>::empty(),
{
    let n: usize = remaining(buf);
    let data = take_bytes(buf, n);
    assert(contents(*old(buf)).take(n as int) =~= contents(*old(buf)));
    assert(contents(*old(buf)).skip(n as int) =~= Seq::<u8>::empty());
    data
}

fn read_server_body(code: u32, buf: &mut BytesMut) -> (r: Result<ServerMessage, Halt>)
    ensures
        agrees_view(r, contents(*final(buf)), server_body(code, contents(*old(buf)))),
{
    if code == 1 {
        read_login_response(buf)
    } else if code == 3 {
        read_peer_address(buf)
    } else if code == 7 {
        read_user_stats(buf)
    } else if code == 18 {
        read_connect_request(buf)
    } else if code == 22 {
        read_user_message(buf)
    } else if code == 32 {
        Ok(ServerMessage::ServerPong)
    } else if code == 41 {
        Ok(ServerMessage::Relogged)
    } else if code == 93 {
        let message_type: u8 = read_u8(buf)?;
        let data = read_rest(buf);
        Ok(ServerMessage::EmbeddedMessage { message_type, data })
    } else {
        let data = read_rest(buf);
        Ok(ServerMessage::Unknown { code, data })
    }
}

/// Looks for a whole frame; if there is one, takes its length field and its code.
fn open_frame(buf: &mut BytesMut) -> (r: Result<Option<u32>, Halt>)
    ensures
        ({
            let b = contents(*old(buf));
            match r {
                Ok(None) => !holds_frame(b) && contents(*final(buf)) == b,
                Ok(Some(code)) => {
                    &&& holds_frame(b) && b.skip(4).len() >= 4
                    &&& code == u32_value(b.skip(4))
                    &&& contents(*final(buf)) == b.skip(4).skip(4)
                },
                Err(h) => {
                    &&& holds_frame(b) && b.skip(4).len() < 4
                    &&& h == Halt::Failed(WireError::MessageTooShort)
                    &&& contents(*final(buf)) == b.skip(4)
                },
            }
        }),
{
    if remaining(buf) < 4 {
        return Ok(None);
    }
    let msg_len: u32 = peek_u32(buf);
    if (remaining(buf) as u64) < 4 + msg_len as u64 {
        return Ok(None);
    }
    advance(buf, 4);
    if remaining(buf) < 4 {
        return Err(Halt::Failed(WireError::MessageTooShort));
    }
    let code: u32 = read_u32(buf)?;
    Ok(Some(code))
}

/// Reads the first four bytes without taking them.
fn peek_u32(buf: &BytesMut) -> (n: u32)
    requires
        contents(*buf).len() >= 4,
    ensures
        n == u32_value(contents(*buf)),
{
    u32_at(as_slice(buf), 0)
}

/// The little-endian integer at a position of a slice.
pub fn u32_at(data: &[u8], i: usize) -> (n: u32)
    requires
        i + 4 <= data.len(),
    ensures
        n == u32_value(data@.skip(i as int)),
{
    let b0: u32 = data[i] as u32;
    let b1: u32 = data[i + 1] as u32;
    let b2: u32 = data[i + 2] as u32;
    let b3: u32 = data[i + 3] as u32;
    b0 + 256 * b1 + 65536 * b2 + 16777216 * b3
}

impl ServerMessage {
    /// Takes a message off the buffer, and says so where a field of fixed size reaches
    /// past the end of it.
    pub fn try_decode(buf: &mut BytesMut) -> (r: Result<Option<ServerMessage>, Halt>)
        ensures
            agrees_opt(r, contents(*final(buf)), Self::decoding(contents(*old(buf)))),
    {
        let opened = open_frame(buf)?;
        match opened {
            None => Ok(None),
            Some(code) => {
                let message = read_server_body(code, buf)?;
                Ok(Some(message))
            },
        }
    }
}

impl MessageDecoder for ServerMessage {
    open spec fn decoding(b: Seq<u8>) -> Step<Option<ServerMessageView>> {
        framed(b, |code: u32, rest: Seq<u8>| server_body(code, rest))
    }

    fn decode(buf: &mut BytesMut) -> (r: Result<Option<Self>, WireError>) {
        match Self::try_decode(buf) {
            Ok(m) => Ok(m),
            Err(Halt::Failed(e)) => Err(e),
            Err(Halt::Short) => Err(WireError::MessageTooShort),
        }
    }
}

/// `n` attributes, each a kind and a value, after those already read.
pub open spec fn step_attributes(
    read: Seq<FileAttribute>,
    b: Seq<u8>,
    n: nat,
) -> Step<Seq<FileAttribute>>
    decreases n,
{
    if n == 0 {
        Step::Done(read, b)
    } else if b.len() < 8 {
        Step::Short
    } else {
        step_attributes(
            read.push(
                FileAttribute { attribute_type: u32_value(b), value: u32_value(b.skip(4)) },
            ),
            b.skip(4).skip(4),
            (n - 1) as nat,
        )
    }
}

/// One file entry of a search result.
pub open spec fn step_file(b: Seq<u8>) -> Step<SearchFileView> {
    bind(
        step_u8(b),
        |code: u8, b: Seq<u8>|
            bind(
                step_string(b),
                |filename: Seq<char>, b: Seq<u8>|
                    bind(
                        step_u64(b),
                        |size: u64, b: Seq<u8>|
                            bind(
                                step_string(b),
                                |extension: Seq<char>, b: Seq<u8>|
                                    bind(
                                        step_u32(b),
                                        |count: u32, b: Seq<u8>|
                                            bind(
                                                step_attributes(Seq::empty(), b, count as nat),
                                                |attributes: Seq<FileAttribute>, b: Seq<u8>|
                                                    Step::Done(
                                                        SearchFileView {
                                                            code,
                                                            filename,
                                                            size,
                                                            extension,
                                                            attributes,
                                                        },
                                                        b,
                                                    ),
                                            ),
                                    ),
                            ),
                    ),
            ),
    )
}

/// `n` file entries after those already read.
pub open spec fn step_files(read: Seq<SearchFileView>, b: Seq<u8>, n: nat) -> Step<
    Seq<SearchFileView>,
>
    decreases n,
{
    if n == 0 {
        Step::Done(read, b)
    } else {
        match step_file(b) {
            Step::Done(f, rest) => step_files(read.push(f), rest, (n - 1) as nat),
            Step::Failed(e, rest) => Step::Failed(e, rest),
            Step::Short => Step::Short,
        }
    }
}

/// A search result, after its code.
pub open spec fn search_result(b: Seq<u8>) -> Step<PeerMessageView> {
    bind(
        step_string(b),
        |username: Seq<char>, b: Seq<u8>|
            bind(
                step_u32(b),
                |token: u32, b: Seq<u8>|
                    bind(
                        step_u32(b),
                        |count: u32, b: Seq<u8>|
                            bind(
                                step_files(Seq::empty(), b, count as nat),
                                |files: Seq<SearchFileView>, b: Seq<u8>|
                                    bind(
                                        step_u8(b),
                                        |slots: u8, b: Seq<u8>|
                                            bind(
                                                step_u32(b),
                                                |avg_speed: u32, b: Seq<u8>|
                                                    bind(
                                                        step_u64(b),
                                                        |queue_length: u64, b: Seq<u8>|
                                                            Step::Done(
                                                                PeerMessageView::FileSearchResult {
                                                                    username,
                                                                    token,
                                                                    files,
                                                                    has_slots: slots != 0,
                                                                    avg_speed,
                                                                    queue_length,
                                                                },
                                                                b,
                                                            ),
                                                    ),
                                            ),
                                    ),
                            ),
                    ),
            ),
    )
}

/// The answer to a transfer request, after its code. The size is there only where the
/// transfer is allowed.
pub open spec fn transfer_reply(b: Seq<u8>) -> Step<PeerMessageView> {
    bind(
        step_u32(b),
        |token: u32, b: Seq<u8>|
            bind(
                step_u8(b),
                |allowed: u8, b: Seq<u8>|
                    if allowed != 0 {
                        bind(
                            step_u64(b),
                            |filesize: u64, b: Seq<u8>|
                                Step::Done(
                                    PeerMessageView::TransferReply {
                                        token,
                                        allowed: true,
                                        filesize,
                                    },
                                    b,
                                ),
                        )
                    } else {
                        Step::Done(
                            PeerMessageView::TransferReply { token, allowed: false, filesize: 0 },
                            b,
                        )
                    },
            ),
    )
}

/// The peer message that follows a code.
pub open spec fn peer_body(code: u32, b: Seq<u8>) -> Step<PeerMessageView> {
    if code == 9 {
        search_result(b)
    } else if code == 41 {
        transfer_reply(b)
    } else if code == 44 {
        bind(
            step_string(b),
            |filename: Seq<char>, b: Seq<u8>|
                bind(
                    step_u32(b),
                    |place: u32, b: Seq<u8>|
                        Step::Done(PeerMessageView::PlaceInQueueReply { filename, place }, b),
                ),
        )
    } else if code == 46 {
        bind(
            step_string(b),
            |filename: Seq<char>, b: Seq<u8>|
                Step::Done(PeerMessageView::UploadFailed { filename }, b),
        )
    } else {
        Step::Failed(WireError::UnknownPeerCode(code), b)
    }
}

fn read_attributes(buf: &mut BytesMut, n: u32) -> (r: Result<Vec<FileAttribute>, Halt>)
    ensures
        agrees_view(
            r,
            contents(*final(buf)),
            step_attributes(Seq::empty(), contents(*old(buf)), n as nat),
        ),
{
    let mut attributes: Vec<FileAttribute> = Vec::new();
    let mut i: u32 = 0;
    let ghost goal = step_attributes(Seq::empty(), contents(*buf), n as nat);
    assert(attributes@ =~= Seq::<FileAttribute>::empty());
    while i < n
        invariant
            i <= n,
            step_attributes(attributes@, contents(*buf), (n - i) as nat) == goal,
            goal == step_attributes(Seq::empty(), contents(*old(buf)), n as nat),
        decreases n - i,
    {
        let attribute_type: u32 = read_u32(buf)?;
        let value: u32 = read_u32(buf)?;
        attributes.push(FileAttribute { attribute_type, value });
        i = i + 1;
    }
    Ok(attributes)
}

fn read_file(buf: &mut BytesMut) -> (r: Result<SearchFile, Halt>)
    ensures
        agrees_view(r, contents(*final(buf)), step_file(contents(*old(buf)))),
{
    let code: u8 = read_u8(buf)?;
    let filename = read_string(buf)?;
    let size: u64 = read_u64(buf)?;
    let extension = read_string(buf)?;
    let attr_count: u32 = read_u32(buf)?;
    let attributes = read_attributes(buf, attr_count)?;
    Ok(SearchFile { code, filename, size, extension, attributes })
}

fn read_files(buf: &mut BytesMut, n: u32) -> (r: Result<Vec<SearchFile>, Halt>)
    ensures
        match r {
            Ok(v) => step_files(Seq::empty(), contents(*old(buf)), n as nat) == Step::Done(
                file_views(v@),
                contents(*final(buf)),
            ),
            Err(Halt::Failed(e)) => step_files(Seq::empty(), contents(*old(buf)), n as nat)
                == Step::<Seq<SearchFileView>>::Failed(e, contents(*final(buf))),
            Err(Halt::Short) => step_files(Seq::empty(), contents(*old(buf)), n as nat) is Short,
        },
{
    let mut files: Vec<SearchFile> = Vec::new();
    let mut i: u32 = 0;
    let ghost goal = step_files(Seq::empty(), contents(*buf), n as nat);
    assert(file_views(files@) =~= Seq::<SearchFileView>::empty());
    while i < n
        invariant
            i <= n,
            step_files(file_views(files@), contents(*buf), (n - i) as nat) == goal,
            goal == step_files(Seq::empty(), contents(*old(buf)), n as nat),
        decreases n - i,
    {
        let ghost before = files@;
        let file = read_file(buf)?;
        files.push(file);
        assert(file_views(files@) =~= file_views(before).push(file@));
        i = i + 1;
    }
    Ok(files)
}

fn read_search_result(buf: &mut BytesMut) -> (r: Result<PeerMessage, Halt>)
    ensures
        agrees_view(r, contents(*final(buf)), search_result(contents(*old(buf)))),
{
    let username = read_string(buf)?;
    let token: u32 = read_u32(buf)?;
    let file_count: u32 = read_u32(buf)?;
    let files = read_files(buf, file_count)?;
    let has_slots: bool = read_u8(buf)? != 0;
    let avg_speed: u32 = read_u32(buf)?;
    let queue_length: u64 = read_u64(buf)?;
    Ok(
        PeerMessage::FileSearchResult {
            username,
            token,
            files,
            has_slots,
            avg_speed,
            queue_length,
        },
    )
}

fn read_peer_body(code: u32, buf: &mut BytesMut) -> (r: Result<PeerMessage, Halt>)
    ensures
        agrees_view(r, contents(*final(buf)), peer_body(code, contents(*old(buf)))),
{
    if code == 9 {
        read_search_result(buf)
    } else if code == 41 {
        let token: u32 = read_u32(buf)?;
        let allowed: bool = read_u8(buf)? != 0;
        let filesize: u64 = if allowed {
            read_u64(buf)?
        } else {
            0
        };
        Ok(PeerMessage::TransferReply { token, allowed, filesize })
    } else if code == 44 {
        let filename = read_string(buf)?;
        let place: u32 = read_u32(buf)?;
        Ok(PeerMessage::PlaceInQueueReply { filename, place })
    } else if code == 46 {
        let filename = read_string(buf)?;
        Ok(PeerMessage::UploadFailed { filename })
    } else {
        Err(Halt::Failed(WireError::UnknownPeerCode(code)))
    }
}

impl PeerMessage {
    /// Takes a message off the buffer, and says so where a field of fixed size reaches
    /// past the end of it.
    pub fn try_decode(buf: &mut BytesMut) -> (r: Result<Option<PeerMessage>, Halt>)
        ensures
            agrees_opt(r, contents(*final(buf)), Self::decoding(contents(*old(buf)))),
    {
        let opened = open_frame(buf)?;
        match opened {
            None => Ok(None),
            Some(code) => {
                let message = read_peer_body(code, buf)?;
                Ok(Some(message))
            },
        }
    }
}

impl MessageDecoder for PeerMessage {
    open spec fn decoding(b: Seq<u8>) -> Step<Option<PeerMessageView>> {
        framed(b, |code: u32, rest: Seq<u8>| peer_body(code, rest))
    }

    fn decode(buf: &mut BytesMut) -> (r: Result<Option<Self>, WireError>) {
        match Self::try_decode(buf) {
            Ok(m) => Ok(m),
            Err(Halt::Failed(e)) => Err(e),
            Err(Halt::Short) => Err(WireError::MessageTooShort),
        }
    }
}

// ---------------------------------------------------------------------------
// Laws
// ---------------------------------------------------------------------------
/// While a frame is incomplete, looking for it consumes nothing: more bytes may follow.
pub proof fn law_incomplete_frame_is_kept(b: Seq<u8>)
    requires
        !holds_frame(b),
    ensures
        ServerMessage::decoding(b) == Step::Done(None::<ServerMessageView>, b),
        PeerMessage::decoding(b) == Step::Done(None::<PeerMessageView>, b),
{
}

/// A frame with more bytes behind it is found whole.
proof fn lemma_frame_is_found(code: u32, data: Seq<u8>, rest: Seq<u8>)
    requires
        4 + data.len() < 0x1_0000_0000,
    ensures
        holds_frame(frame(code, data) + rest),
        u32_value((frame(code, data) + rest).skip(4)) == code,
        (frame(code, data) + rest).skip(8) == data + rest,
{
    let n = (4 + data.len()) as u32;
    let tail = u32_bytes(code) + (data + rest);
    let whole = frame(code, data) + rest;
    crate::wire::lemma_u32_round_trip(n, tail);
    crate::wire::lemma_u32_round_trip(code, data + rest);
    assert(whole =~= u32_bytes(n) + tail);
    assert(whole.skip(8) =~= data + rest);
}

/// A frame that this client wrote holds its own message code, and a receiver finds it
/// whole. A message of four gigabytes or more does not fit its length field.
pub proof fn law_encoded_server_frame(message: ServerMessage, rest: Seq<u8>)
    requires
        server_payload(message@) matches Some((code, data)) && 4 + data.len() < 0x1_0000_0000,
    ensures
        message.encoded() matches Some(bytes) && {
            &&& holds_frame(bytes + rest)
            &&& u32_value((bytes + rest).skip(4)) == server_payload(message@)->Some_0.0.number()
            &&& (bytes + rest).skip(8) == server_payload(message@)->Some_0.1 + rest
        },
{
    let (code, data) = server_payload(message@)->Some_0;
    lemma_frame_is_found(code.number(), data, rest);
}

/// The same holds of the messages for peers.
pub proof fn law_encoded_peer_frame(message: PeerMessage, rest: Seq<u8>)
    requires
        peer_payload(message@) matches Some((code, data)) && 4 + data.len() < 0x1_0000_0000,
    ensures
        message.encoded() matches Some(bytes) && {
            &&& holds_frame(bytes + rest)
            &&& u32_value((bytes + rest).skip(4)) == peer_payload(message@)->Some_0.0.number()
            &&& (bytes + rest).skip(8) == peer_payload(message@)->Some_0.1 + rest
        },
{
    let (code, data) = peer_payload(message@)->Some_0;
    lemma_frame_is_found(code.number() as u32, data, rest);
}

/// A text fits its length field.
pub open spec fn short_text(s: Seq<char>) -> bool {
    encode_utf8(s).len() < 0x1_0000_0000
}

/// The first attribute of a kind is found: none before it is of that kind. Where none is
/// found there is none.
pub proof fn law_first_attribute_is_found(attributes: Seq<FileAttribute>, kind: u32)
    ensures
        match first_attribute(attributes, kind) {
            Some(value) => exists|i: int|
                0 <= i < attributes.len() && (#[trigger] attributes[i]).attribute_type == kind
                    && attributes[i].value == value && forall|j: int|
                    0 <= j < i ==> (#[trigger] attributes[j]).attribute_type != kind,
            None => forall|j: int|
                0 <= j < attributes.len() ==> (#[trigger] attributes[j]).attribute_type != kind,
        },
    decreases attributes.len(),
{
    if attributes.len() > 0 {
        if attributes[0].attribute_type == kind {
            assert(first_attribute(attributes, kind) == Some(attributes[0].value));
        } else {
            let rest = attributes.skip(1);
            law_first_attribute_is_found(rest, kind);
            match first_attribute(rest, kind) {
                Some(value) => {
                    let i = choose|i: int|
                        0 <= i < rest.len() && (#[trigger] rest[i]).attribute_type == kind
                            && rest[i].value == value && forall|j: int|
                            0 <= j < i ==> (#[trigger] rest[j]).attribute_type != kind;
                    assert(attributes[i + 1] == rest[i]);
                    assert forall|j: int| 0 <= j < i + 1 implies (
                    #[trigger] attributes[j]).attribute_type != kind by {
                        if j > 0 {
                            assert(attributes[j] == rest[j - 1]);
                        }
                    }
                },
                None => {
                    assert forall|j: int| 0 <= j < attributes.len() implies (
                    #[trigger] attributes[j]).attribute_type != kind by {
                        if j > 0 {
                            assert(attributes[j] == rest[j - 1]);
                        }
                    }
                },
            }
        }
    }
}

/// The four bytes of an address are written with the most significant first, in decimal and
/// with dots between them.
pub proof fn law_address_is_read(a: u8, b: u8, c: u8, d: u8, rest: Seq<u8>)
    ensures
        step_address(seq![d, c, b, a] + rest) == Step::Done(
            decimal(a as nat) + "."@ + decimal(b as nat) + "."@ + decimal(c as nat) + "."@
                + decimal(d as nat),
            rest,
        ),
{
    reveal_strlit(".");
    assert("."@ =~= seq!['.']);
    assert((seq![d, c, b, a] + rest).skip(4) =~= rest);
}

/// A frame with a message after its code is taken off the buffer as that message, and what
/// the message leaves is left.
pub proof fn law_frame_is_opened(code: u32, data: Seq<u8>, rest: Seq<u8>)
    requires
        4 + data.len() < 0x1_0000_0000,
    ensures
        server_body(code, data + rest) matches Step::Done(m, left) ==> ServerMessage::decoding(
            frame(code, data) + rest,
        ) == Step::Done(Some(m), left),
        peer_body(code, data + rest) matches Step::Done(m, left) ==> PeerMessage::decoding(
            frame(code, data) + rest,
        ) == Step::Done(Some(m), left),
{
    let whole = frame(code, data) + rest;
    lemma_frame_is_found(code, data, rest);
    assert(whole.skip(4).skip(4) =~= whole.skip(8));
}

/// A frame that leaves no room for a code is refused.
pub proof fn law_frame_without_code_is_refused(n: u32, data: Seq<u8>)
    requires
        n < 4,
        data.len() == n,
    ensures
        ServerMessage::decoding(u32_bytes(n) + data) == Step::<Option<ServerMessageView>>::Failed(
            WireError::MessageTooShort,
            data,
        ),
        PeerMessage::decoding(u32_bytes(n) + data) == Step::<Option<PeerMessageView>>::Failed(
            WireError::MessageTooShort,
            data,
        ),
{
    crate::wire::lemma_u32_round_trip(n, data);
}

/// A login that the server refuses is read as refused, with the reason; one that it grants
/// is read as granted, with the greeting and the address where they follow.
#[verifier::spinoff_prover]
pub proof fn law_login_response_is_read(
    granted: u8,
    reason: Seq<char>,
    greeting: Seq<char>,
    ip: Seq<char>,
)
    requires
        short_text(reason),
        short_text(greeting),
        short_text(ip),
    ensures
        server_body(1, seq![0u8] + string_field(reason)) == Step::Done(
            ServerMessageView::LoginResponse { success: false, reason, greeting: None, ip: None },
            Seq::<u8>::empty(),
        ),
        granted != 0 ==> server_body(
            1,
            seq![granted] + string_field(reason) + string_field(greeting) + string_field(ip),
        ) == Step::Done(
            ServerMessageView::LoginResponse {
                success: true,
                reason,
                greeting: Some(greeting),
                ip: Some(ip),
            },
            Seq::<u8>::empty(),
        ),
        granted != 0 ==> server_body(1, seq![granted] + string_field(reason)) == Step::Done(
            ServerMessageView::LoginResponse { success: true, reason, greeting: None, ip: None },
            Seq::<u8>::empty(),
        ),
{
    let none = Seq::<u8>::empty();
    let (r, g, i) = (string_field(reason), string_field(greeting), string_field(ip));
    law_string_round_trip(reason, none);
    lemma_append_nothing(r);
    lemma_first_byte(0, r);
    lemma_first_byte(granted, r);
    law_string_round_trip(ip, none);
    lemma_append_nothing(i);
    law_string_round_trip(greeting, i);
    law_string_round_trip(reason, g + i);
    lemma_join4(seq![granted], r, g, i);
    lemma_first_byte(granted, r + (g + i));
    lemma_login_parts(seq![0u8] + r, 0, r, reason, none, none);
    lemma_login_parts(seq![granted] + r, granted, r, reason, none, none);
    lemma_string_field_is_long(greeting);
    lemma_string_field_is_long(ip);
    lemma_login_parts(seq![granted] + (r + (g + i)), granted, r + (g + i), reason, g + i, i);
}

/// The first byte of some bytes, and the others.
proof fn lemma_first_byte(first: u8, rest: Seq<u8>)
    ensures
        step_u8(seq![first] + rest) == Step::Done(first, rest),
{
    assert((seq![first] + rest).skip(1) =~= rest);
}

/// A text takes at least the four bytes of its length.
proof fn lemma_string_field_is_long(s: Seq<char>)
    ensures
        string_field(s).len() >= 4,
{
}

/// What the parts of an answer to a login make of it.
proof fn lemma_login_parts(
    whole: Seq<u8>,
    granted: u8,
    b: Seq<u8>,
    reason: Seq<char>,
    c: Seq<u8>,
    d: Seq<u8>,
)
    requires
        step_u8(whole) == Step::Done(granted, b),
        step_string(b) == Step::Done(reason, c),
        c.len() >= 4 ==> (step_string(c) matches Step::Done(greeting, rest) && rest == d),
        c.len() < 4 ==> d == c,
    ensures
        server_body(1, whole) == if granted == 0 {
            Step::Done(
                ServerMessageView::LoginResponse {
                    success: false,
                    reason,
                    greeting: None,
                    ip: None,
                },
                c,
            )
        } else {
            Step::Done(
                ServerMessageView::LoginResponse {
                    success: true,
                    reason,
                    greeting: optional_string(c).0,
                    ip: optional_string(d).0,
                },
                Seq::empty(),
            )
        },
{
}

/// The address of a peer is read as it was written.
pub proof fn law_peer_address_is_read(
    username: Seq<char>,
    ip: Seq<char>,
    low: u8,
    high: u8,
    rest: Seq<u8>,
)
    requires
        short_text(username),
        short_text(ip),
    ensures
        server_body(3, string_field(username) + string_field(ip) + seq![low, high] + rest)
            == Step::Done(
            ServerMessageView::PeerAddress { username, ip, port: (low + 256 * high) as u16 },
            rest,
        ),
{
    let port = seq![low, high] + rest;
    law_string_round_trip(ip, port);
    law_string_round_trip(username, string_field(ip) + port);
    lemma_join4(string_field(username), string_field(ip), seq![low, high], rest);
    assert(port.skip(2) =~= rest);
}

/// The statistics of a user are read as they were written.
#[verifier::spinoff_prover]
pub proof fn law_user_stats_are_read(
    username: Seq<char>,
    avg_speed: u32,
    uploads: u64,
    shared_files: u32,
    shared_folders: u32,
    rest: Seq<u8>,
)
    requires
        short_text(username),
    ensures
        server_body(
            7,
            string_field(username) + u32_bytes(avg_speed) + u64_bytes(uploads) + u32_bytes(
                shared_files,
            ) + u32_bytes(shared_folders) + rest,
        ) == Step::Done(
            ServerMessageView::UserStats {
                username,
                avg_speed,
                uploads,
                shared_files,
                shared_folders,
            },
            rest,
        ),
{
    let d = u32_bytes(shared_folders) + rest;
    let c = u32_bytes(shared_files) + d;
    let b = u64_bytes(uploads) + c;
    let a = u32_bytes(avg_speed) + b;
    lemma_u32_round_trip(shared_folders, rest);
    lemma_u32_round_trip(shared_files, d);
    law_u64_round_trip(uploads, c);
    lemma_u32_round_trip(avg_speed, b);
    law_string_round_trip(username, a);
    lemma_join6(
        string_field(username),
        u32_bytes(avg_speed),
        u64_bytes(uploads),
        u32_bytes(shared_files),
        u32_bytes(shared_folders),
        rest,
    );
}

/// A private message is read as it was written.
#[verifier::spinoff_prover]
pub proof fn law_user_message_is_read(
    message_id: u32,
    timestamp: u32,
    username: Seq<char>,
    message: Seq<char>,
    rest: Seq<u8>,
)
    requires
        short_text(username),
        short_text(message),
    ensures
        server_body(
            22,
            u32_bytes(message_id) + u32_bytes(timestamp) + string_field(username) + string_field(
                message,
            ) + rest,
        ) == Step::Done(
            ServerMessageView::MessageUserReceived { message_id, timestamp, username, message },
            rest,
        ),
{
    let c = string_field(message) + rest;
    let b = string_field(username) + c;
    let a = u32_bytes(timestamp) + b;
    law_string_round_trip(message, rest);
    law_string_round_trip(username, c);
    lemma_u32_round_trip(timestamp, b);
    lemma_u32_round_trip(message_id, a);
    lemma_join5(
        u32_bytes(message_id),
        u32_bytes(timestamp),
        string_field(username),
        string_field(message),
        rest,
    );
}

/// A request to connect to a peer is read as it was written, with the port cut to 16 bits,
/// and privileged only where it says so.
pub proof fn law_connect_request_is_read(
    username: Seq<char>,
    connection_type: Seq<char>,
    address: Seq<u8>,
    port: u32,
    token: u32,
    privileged: u8,
)
    requires
        short_text(username),
        short_text(connection_type),
        address.len() == 4,
    ensures
        ({
            let head = string_field(username) + string_field(connection_type) + address + u32_bytes(
                port,
            ) + u32_bytes(token);
            let ip = dotted(address[3], address[2], address[1], address[0]);
            &&& server_body(18, head) == Step::Done(
                ServerMessageView::ConnectToPeerRequest {
                    username,
                    connection_type,
                    ip,
                    port: (port % 65536) as u16,
                    token,
                    privileged: false,
                },
                Seq::<u8>::empty(),
            )
            &&& server_body(18, head + seq![privileged]) == Step::Done(
                ServerMessageView::ConnectToPeerRequest {
                    username,
                    connection_type,
                    ip,
                    port: (port % 65536) as u16,
                    token,
                    privileged: privileged != 0,
                },
                Seq::<u8>::empty(),
            )
        }),
{
    lemma_connect_head(username, connection_type, address, port, token, Seq::empty());
    lemma_connect_head(username, connection_type, address, port, token, seq![privileged]);
    let head = string_field(username) + string_field(connection_type) + address + u32_bytes(port)
        + u32_bytes(token);
    lemma_append_nothing(head);
    assert(seq![privileged].skip(1) =~= Seq::<u8>::empty());
}

/// What a request to connect is read as, up to its last byte.
#[verifier::spinoff_prover]
proof fn lemma_connect_head(
    username: Seq<char>,
    connection_type: Seq<char>,
    address: Seq<u8>,
    port: u32,
    token: u32,
    rest: Seq<u8>,
)
    requires
        short_text(username),
        short_text(connection_type),
        address.len() == 4,
    ensures
        server_body(
            18,
            string_field(username) + string_field(connection_type) + address + u32_bytes(port)
                + u32_bytes(token) + rest,
        ) == Step::Done(
            ServerMessageView::ConnectToPeerRequest {
                username,
                connection_type,
                ip: dotted(address[3], address[2], address[1], address[0]),
                port: (port % 65536) as u16,
                token,
                privileged: rest.len() >= 1 && rest[0] != 0,
            },
            if rest.len() >= 1 {
                rest.skip(1)
            } else {
                rest
            },
        ),
{
    let d = u32_bytes(token) + rest;
    let c = u32_bytes(port) + d;
    let b = address + c;
    let a = string_field(connection_type) + b;
    law_u32_round_trip(token, rest, Seq::empty());
    law_u32_round_trip(port, d, Seq::empty());
    lemma_four_bytes(address, c);
    law_string_round_trip(connection_type, b);
    law_string_round_trip(username, a);
    lemma_join6(
        string_field(username),
        string_field(connection_type),
        address,
        u32_bytes(port),
        u32_bytes(token),
        rest,
    );
    lemma_connect_parts(
        string_field(username) + a,
        username,
        a,
        connection_type,
        b,
        dotted(address[3], address[2], address[1], address[0]),
        c,
        port,
        d,
        token,
        rest,
    );
}

/// The address that four bytes spell.
pub proof fn lemma_four_bytes(address: Seq<u8>, rest: Seq<u8>)
    requires
        address.len() == 4,
    ensures
        step_address(address + rest) == Step::Done(
            dotted(address[3], address[2], address[1], address[0]),
            rest,
        ),
{
    assert((address + rest).skip(4) =~= rest);
}

/// What the parts of a request to connect make of it.
proof fn lemma_connect_parts(
    whole: Seq<u8>,
    username: Seq<char>,
    a: Seq<u8>,
    connection_type: Seq<char>,
    b: Seq<u8>,
    ip: Seq<char>,
    c: Seq<u8>,
    port: u32,
    d: Seq<u8>,
    token: u32,
    rest: Seq<u8>,
)
    requires
        step_string(whole) == Step::Done(username, a),
        step_string(a) == Step::Done(connection_type, b),
        step_address(b) == Step::Done(ip, c),
        step_u32(c) == Step::Done(port, d),
        step_u32(d) == Step::Done(token, rest),
    ensures
        server_body(18, whole) == Step::Done(
            ServerMessageView::ConnectToPeerRequest {
                username,
                connection_type,
                ip,
                port: (port % 65536) as u16,
                token,
                privileged: rest.len() >= 1 && rest[0] != 0,
            },
            if rest.len() >= 1 {
                rest.skip(1)
            } else {
                rest
            },
        ),
{
}

/// A message of the distributed network keeps its type and all its data; a message with a
/// code that is not read keeps its code and all its data.
pub proof fn law_other_messages_are_kept(code: u32, message_type: u8, data: Seq<u8>)
    ensures
        server_body(93, seq![message_type] + data) == Step::Done(
            ServerMessageView::EmbeddedMessage { message_type, data },
            Seq::<u8>::empty(),
        ),
        server_body(32, data) == Step::Done(ServerMessageView::ServerPong, data),
        server_body(41, data) == Step::Done(ServerMessageView::Relogged, data),
        code != 1 && code != 3 && code != 7 && code != 18 && code != 22 && code != 32 && code != 41
            && code != 93 ==> server_body(code, data) == Step::Done(
            ServerMessageView::Unknown { code, data },
            Seq::<u8>::empty(),
        ),
{
    assert((seq![message_type] + data).skip(1) =~= data);
}

/// Attributes as they are written: the kind and the value of each.
pub open spec fn attribute_bytes(attributes: Seq<FileAttribute>) -> Seq<u8>
    decreases attributes.len(),
{
    if attributes.len() == 0 {
        Seq::empty()
    } else {
        u32_bytes(attributes[0].attribute_type) + u32_bytes(attributes[0].value) + attribute_bytes(
            attributes.skip(1),
        )
    }
}

/// A file entry as it is written.
#[verifier::opaque]
pub open spec fn file_bytes(f: SearchFileView) -> Seq<u8> {
    seq![f.code] + string_field(f.filename) + u64_bytes(f.size) + string_field(f.extension)
        + u32_bytes(f.attributes.len() as u32) + attribute_bytes(f.attributes)
}

/// File entries as they are written.
pub open spec fn files_bytes(files: Seq<SearchFileView>) -> Seq<u8>
    decreases files.len(),
{
    if files.len() == 0 {
        Seq::empty()
    } else {
        file_bytes(files[0]) + files_bytes(files.skip(1))
    }
}

/// The texts and the number of attributes of a file entry fit their fields.
pub open spec fn file_fits(f: SearchFileView) -> bool {
    short_text(f.filename) && short_text(f.extension) && f.attributes.len() < 0x1_0000_0000
}

/// Attributes are read as they were written.
#[verifier::spinoff_prover]
proof fn lemma_attributes_are_read(
    read: Seq<FileAttribute>,
    attributes: Seq<FileAttribute>,
    rest: Seq<u8>,
)
    ensures
        step_attributes(read, attribute_bytes(attributes) + rest, attributes.len()) == Step::Done(
            read + attributes,
            rest,
        ),
    decreases attributes.len(),
{
    if attributes.len() == 0 {
        assert(attribute_bytes(attributes) + rest =~= rest);
        assert(read + attributes =~= read);
    } else {
        let tail = attribute_bytes(attributes.skip(1)) + rest;
        let b = attribute_bytes(attributes) + rest;
        let value = u32_bytes(attributes[0].value) + tail;
        assert(b =~= u32_bytes(attributes[0].attribute_type) + value);
        lemma_u32_round_trip(attributes[0].attribute_type, value);
        lemma_u32_round_trip(attributes[0].value, tail);
        lemma_attributes_are_read(read.push(attributes[0]), attributes.skip(1), rest);
        assert(read.push(attributes[0]) + attributes.skip(1) =~= read + attributes);
    }
}

/// The parts of a file entry, one after the other.
#[verifier::spinoff_prover]
pub proof fn lemma_file_parts(f: SearchFileView, rest: Seq<u8>)
    requires
        file_fits(f),
    ensures
        ({
            let b = file_bytes(f) + rest;
            let attributes = attribute_bytes(f.attributes) + rest;
            let count = u32_bytes(f.attributes.len() as u32) + attributes;
            let extension = string_field(f.extension) + count;
            let size = u64_bytes(f.size) + extension;
            let named = string_field(f.filename) + size;
            &&& b.len() >= 1
            &&& b[0] == f.code
            &&& b.skip(1) == named
            &&& step_string(named) == Step::Done(f.filename, size)
            &&& size.len() >= 8
            &&& u64_value(size) == f.size
            &&& size.skip(8) == extension
            &&& step_string(extension) == Step::Done(f.extension, count)
            &&& count.len() >= 4
            &&& u32_value(count) == f.attributes.len()
            &&& count.skip(4) == attributes
        }),
{
    reveal(file_bytes);
    let b = file_bytes(f) + rest;
    let attributes = attribute_bytes(f.attributes) + rest;
    let n = f.attributes.len() as u32;
    let count = u32_bytes(n) + attributes;
    let extension = string_field(f.extension) + count;
    let size = u64_bytes(f.size) + extension;
    let named = string_field(f.filename) + size;
    assert(b =~= seq![f.code] + named);
    assert(b.skip(1) =~= named);
    law_string_round_trip(f.filename, size);
    law_u64_round_trip(f.size, extension);
    law_string_round_trip(f.extension, count);
    lemma_u32_round_trip(n, attributes);
}

/// A file entry is read as it was written.
#[verifier::spinoff_prover]
proof fn lemma_file_is_read(f: SearchFileView, rest: Seq<u8>)
    requires
        file_fits(f),
    ensures
        step_file(file_bytes(f) + rest) == Step::Done(f, rest),
{
    let b = file_bytes(f) + rest;
    let attributes = attribute_bytes(f.attributes) + rest;
    let count = u32_bytes(f.attributes.len() as u32) + attributes;
    let extension = string_field(f.extension) + count;
    let size = u64_bytes(f.size) + extension;
    let named = string_field(f.filename) + size;
    lemma_file_parts(f, rest);
    lemma_attributes_are_read(Seq::empty(), f.attributes, rest);
    assert(Seq::<FileAttribute>::empty() + f.attributes =~= f.attributes);
    lemma_file_of_parts(b, f, named, size, extension, count, attributes, rest);
}

/// What the parts of a file entry make of it.
proof fn lemma_file_of_parts(
    b: Seq<u8>,
    f: SearchFileView,
    named: Seq<u8>,
    size: Seq<u8>,
    extension: Seq<u8>,
    count: Seq<u8>,
    attributes: Seq<u8>,
    rest: Seq<u8>,
)
    requires
        b.len() >= 1,
        b[0] == f.code,
        b.skip(1) == named,
        step_string(named) == Step::Done(f.filename, size),
        size.len() >= 8,
        u64_value(size) == f.size,
        size.skip(8) == extension,
        step_string(extension) == Step::Done(f.extension, count),
        count.len() >= 4,
        u32_value(count) == f.attributes.len(),
        count.skip(4) == attributes,
        step_attributes(Seq::empty(), attributes, f.attributes.len()) == Step::Done(
            f.attributes,
            rest,
        ),
    ensures
        step_file(b) == Step::Done(f, rest),
{
}

/// Reading file entries goes on after the first one.
proof fn lemma_files_step(
    read: Seq<SearchFileView>,
    f: SearchFileView,
    b: Seq<u8>,
    rest: Seq<u8>,
    n: nat,
)
    requires
        n > 0,
        step_file(b) == Step::Done(f, rest),
    ensures
        step_files(read, b, n) == step_files(read.push(f), rest, (n - 1) as nat),
{
}

/// What was read before, the first of what follows and the others are all that is read.
pub proof fn lemma_first_and_others<A>(read: Seq<A>, all: Seq<A>)
    requires
        all.len() > 0,
    ensures
        read.push(all[0]) + all.skip(1) == read + all,
{
    assert(read.push(all[0]) + all.skip(1) =~= read + all);
}

/// The bytes of file entries with others after them begin with those of the first entry.
pub proof fn lemma_first_file(files: Seq<SearchFileView>, rest: Seq<u8>)
    requires
        forall|i: int| 0 <= i < files.len() ==> file_fits(#[trigger] files[i]),
    ensures
        files.len() == 0 ==> files_bytes(files) + rest == rest,
        files.len() > 0 ==> files_bytes(files) + rest == file_bytes(files[0]) + (files_bytes(
            files.skip(1),
        ) + rest) && file_fits(files[0]) && forall|i: int|
            0 <= i < files.skip(1).len() ==> file_fits(#[trigger] files.skip(1)[i]),
{
    if files.len() == 0 {
        assert(files_bytes(files) + rest =~= rest);
    } else {
        assert(file_fits(files[0]));
        lemma_join3(file_bytes(files[0]), files_bytes(files.skip(1)), rest);
        assert forall|i: int| 0 <= i < files.skip(1).len() implies file_fits(
            #[trigger] files.skip(1)[i],
        ) by {
            assert(files.skip(1)[i] == files[i + 1]);
        }
    }
}

/// File entries are read as they were written.
#[verifier::spinoff_prover]
proof fn lemma_files_are_read(
    read: Seq<SearchFileView>,
    files: Seq<SearchFileView>,
    rest: Seq<u8>,
)
    requires
        forall|i: int| 0 <= i < files.len() ==> file_fits(#[trigger] files[i]),
    ensures
        step_files(read, files_bytes(files) + rest, files.len()) == Step::Done(read + files, rest),
    decreases files.len(),
{
    lemma_first_file(files, rest);
    if files.len() == 0 {
        assert(read + files =~= read);
        assert(step_files(read, rest, 0) == Step::Done(read, rest));
    } else {
        let f = files[0];
        let tail = files_bytes(files.skip(1)) + rest;
        lemma_file_is_read(f, tail);
        lemma_files_step(read, f, file_bytes(f) + tail, tail, files.len());
        lemma_files_are_read(read.push(f), files.skip(1), rest);
        lemma_first_and_others(read, files);
    }
}

/// A search result is read as it was written: every file with its name, size, extension and
/// attributes, and whether a slot is free.
#[verifier::spinoff_prover]
pub proof fn law_search_result_is_read(
    username: Seq<char>,
    token: u32,
    files: Seq<SearchFileView>,
    slots: u8,
    avg_speed: u32,
    queue_length: u64,
    rest: Seq<u8>,
)
    requires
        short_text(username),
        files.len() < 0x1_0000_0000,
        forall|i: int| 0 <= i < files.len() ==> file_fits(#[trigger] files[i]),
    ensures
        peer_body(
            9,
            string_field(username) + u32_bytes(token) + u32_bytes(files.len() as u32)
                + files_bytes(files) + seq![slots] + u32_bytes(avg_speed) + u64_bytes(queue_length)
                + rest,
        ) == Step::Done(
            PeerMessageView::FileSearchResult {
                username,
                token,
                files,
                has_slots: slots != 0,
                avg_speed,
                queue_length,
            },
            rest,
        ),
{
    let n = files.len() as u32;
    let f = u64_bytes(queue_length) + rest;
    let e = u32_bytes(avg_speed) + f;
    let d = seq![slots] + e;
    let c = files_bytes(files) + d;
    let b = u32_bytes(n) + c;
    let a = u32_bytes(token) + b;
    law_u64_round_trip(queue_length, rest);
    law_u32_round_trip(avg_speed, f, Seq::empty());
    lemma_first_byte(slots, e);
    lemma_files_are_read(Seq::empty(), files, d);
    assert(Seq::<SearchFileView>::empty() + files =~= files);
    law_u32_round_trip(n, c, Seq::empty());
    law_u32_round_trip(token, b, Seq::empty());
    law_string_round_trip(username, a);
    lemma_join8(
        string_field(username),
        u32_bytes(token),
        u32_bytes(n),
        files_bytes(files),
        seq![slots],
        u32_bytes(avg_speed),
        u64_bytes(queue_length),
        rest,
    );
    lemma_search_result_parts(
        string_field(username) + a,
        username,
        a,
        token,
        b,
        files,
        c,
        d,
        slots,
        e,
        avg_speed,
        f,
        queue_length,
        rest,
    );
}

/// What the parts of a search result make of it.
proof fn lemma_search_result_parts(
    whole: Seq<u8>,
    username: Seq<char>,
    a: Seq<u8>,
    token: u32,
    b: Seq<u8>,
    files: Seq<SearchFileView>,
    c: Seq<u8>,
    d: Seq<u8>,
    slots: u8,
    e: Seq<u8>,
    avg_speed: u32,
    f: Seq<u8>,
    queue_length: u64,
    rest: Seq<u8>,
)
    requires
        files.len() < 0x1_0000_0000,
        step_string(whole) == Step::Done(username, a),
        step_u32(a) == Step::Done(token, b),
        step_u32(b) == Step::Done(files.len() as u32, c),
        step_files(Seq::empty(), c, files.len()) == Step::Done(files, d),
        step_u8(d) == Step::Done(slots, e),
        step_u32(e) == Step::Done(avg_speed, f),
        step_u64(f) == Step::Done(queue_length, rest),
    ensures
        peer_body(9, whole) == Step::Done(
            PeerMessageView::FileSearchResult {
                username,
                token,
                files,
                has_slots: slots != 0,
                avg_speed,
                queue_length,
            },
            rest,
        ),
{
}

/// An answer to a transfer request is read as it was written: allowed with the size of the
/// file, or not allowed.
pub proof fn law_transfer_reply_is_read(token: u32, allowed: u8, filesize: u64, rest: Seq<u8>)
    ensures
        allowed != 0 ==> peer_body(
            41,
            u32_bytes(token) + seq![allowed] + u64_bytes(filesize) + rest,
        ) == Step::Done(
            PeerMessageView::TransferReply { token, allowed: true, filesize },
            rest,
        ),
        peer_body(41, u32_bytes(token) + seq![0u8] + rest) == Step::Done(
            PeerMessageView::TransferReply { token, allowed: false, filesize: 0 },
            rest,
        ),
{
    let size = u64_bytes(filesize) + rest;
    let yes = seq![allowed] + size;
    law_u64_round_trip(filesize, rest);
    assert(yes.skip(1) =~= size);
    lemma_u32_round_trip(token, yes);
    assert(u32_bytes(token) + seq![allowed] + u64_bytes(filesize) + rest =~= u32_bytes(token) + yes);
    let no = seq![0u8] + rest;
    assert(no.skip(1) =~= rest);
    lemma_u32_round_trip(token, no);
    assert(u32_bytes(token) + seq![0u8] + rest =~= u32_bytes(token) + no);
}

/// A place in a queue and a failed upload are read as they were written; a code that this
/// client does not read is refused, with the code.
pub proof fn law_queue_messages_are_read(
    filename: Seq<char>,
    place: u32,
    code: u32,
    rest: Seq<u8>,
)
    requires
        short_text(filename),
    ensures
        peer_body(44, string_field(filename) + u32_bytes(place) + rest) == Step::Done(
            PeerMessageView::PlaceInQueueReply { filename, place },
            rest,
        ),
        peer_body(46, string_field(filename) + rest) == Step::Done(
            PeerMessageView::UploadFailed { filename },
            rest,
        ),
        code != 9 && code != 41 && code != 44 && code != 46 ==> peer_body(code, rest) == Step::<
            PeerMessageView,
        >::Failed(WireError::UnknownPeerCode(code), rest),
{
    let tail = u32_bytes(place) + rest;
    lemma_u32_round_trip(place, rest);
    law_string_round_trip(filename, tail);
    law_string_round_trip(filename, rest);
    assert(string_field(filename) + u32_bytes(place) + rest =~= string_field(filename) + tail);
}

/// What is sent to the server to log in holds the name, the password, the version, the digest
/// and the minor version, in this order.
#[verifier::spinoff_prover]
pub proof fn law_login_holds_its_fields(
    username: Seq<char>,
    password: Seq<char>,
    version: u32,
    md5_hash: Seq<char>,
    minor_version: u32,
)
    requires
        short_text(username),
        short_text(password),
        short_text(md5_hash),
    ensures
        ({
            let login = ServerMessageView::Login {
                username,
                password,
                version,
                md5_hash,
                minor_version,
            };
            &&& server_payload(login) matches Some((code, data))
            &&& code.number() == 1
            &&& step_string(data) matches Step::Done(a, r1)
            &&& a == username
            &&& step_string(r1) matches Step::Done(b, r2)
            &&& b == password
            &&& step_u32(r2) matches Step::Done(v, r3)
            &&& v == version
            &&& step_string(r3) matches Step::Done(h, r4)
            &&& h == md5_hash
            &&& step_u32(r4) == Step::Done(minor_version, Seq::<u8>::empty())
        }),
{
    let last = u32_bytes(minor_version);
    let l3 = string_field(md5_hash) + last;
    let l2 = u32_bytes(version) + l3;
    let l1 = string_field(password) + l2;
    law_u32_round_trip(minor_version, Seq::empty(), Seq::empty());
    lemma_append_nothing(last);
    law_string_round_trip(md5_hash, last);
    law_u32_round_trip(version, l3, Seq::empty());
    law_string_round_trip(password, l2);
    law_string_round_trip(username, l1);
    lemma_join5(
        string_field(username),
        string_field(password),
        u32_bytes(version),
        string_field(md5_hash),
        last,
    );
}

/// A text at the end of a message is read back.
proof fn lemma_last_string(s: Seq<char>)
    requires
        short_text(s),
    ensures
        step_string(string_field(s)) == Step::Done(s, Seq::<u8>::empty()),
{
    law_string_round_trip(s, Seq::empty());
    lemma_append_nothing(string_field(s));
}

/// A number at the end of a message is read back.
proof fn lemma_last_number(n: u32)
    ensures
        step_u32(u32_bytes(n)) == Step::Done(n, Seq::<u8>::empty()),
{
    law_u32_round_trip(n, Seq::empty(), Seq::empty());
    lemma_append_nothing(u32_bytes(n));
}

/// A search, of all users or of one, holds its token and its query, and the user.
pub proof fn law_searches_hold_their_fields(token: u32, query: Seq<char>, username: Seq<char>)
    requires
        short_text(query),
        short_text(username),
    ensures
        ({
            &&& server_payload(ServerMessageView::FileSearch { token, query }) matches Some(
                (code, data),
            )
            &&& code.number() == 26
            &&& step_u32(data) matches Step::Done(t, r1)
            &&& t == token
            &&& step_string(r1) == Step::Done(query, Seq::<u8>::empty())
        }),
        ({
            &&& server_payload(
                ServerMessageView::UserSearch { username, token, query },
            ) matches Some((code, data))
            &&& code.number() == 42
            &&& step_string(data) matches Step::Done(u, r1)
            &&& u == username
            &&& step_u32(r1) matches Step::Done(t, r2)
            &&& t == token
            &&& step_string(r2) == Step::Done(query, Seq::<u8>::empty())
        }),
{
    lemma_last_string(query);
    law_u32_round_trip(token, string_field(query), Seq::empty());
    law_string_round_trip(username, u32_bytes(token) + string_field(query));
    lemma_join3(string_field(username), u32_bytes(token), string_field(query));
}

/// A request to connect to a peer holds the token, the user and the kind of connection; a
/// private message holds its recipient and its text.
pub proof fn law_user_messages_hold_their_fields(
    token: u32,
    username: Seq<char>,
    text: Seq<char>,
)
    requires
        short_text(username),
        short_text(text),
    ensures
        ({
            &&& server_payload(
                ServerMessageView::ConnectToPeer { token, username, connection_type: text },
            ) matches Some((code, data))
            &&& code.number() == 18
            &&& step_u32(data) matches Step::Done(t, r1)
            &&& t == token
            &&& step_string(r1) matches Step::Done(u, r2)
            &&& u == username
            &&& step_string(r2) == Step::Done(text, Seq::<u8>::empty())
        }),
        ({
            &&& server_payload(
                ServerMessageView::MessageUser { username, message: text },
            ) matches Some((code, data))
            &&& code.number() == 22
            &&& step_string(data) matches Step::Done(u, r1)
            &&& u == username
            &&& step_string(r1) == Step::Done(text, Seq::<u8>::empty())
        }),
{
    lemma_last_string(text);
    law_string_round_trip(username, string_field(text));
    law_u32_round_trip(token, string_field(username) + string_field(text), Seq::empty());
    lemma_join3(u32_bytes(token), string_field(username), string_field(text));
}

/// The messages to the server with a number or a name, or with nothing, hold what they are
/// about.
pub proof fn law_short_messages_hold_their_fields(m: u32, n: u32, username: Seq<char>)
    requires
        short_text(username),
    ensures
        ({
            &&& server_payload(
                ServerMessageView::SharedFoldersFiles { folders: m, files: n },
            ) matches Some((code, data))
            &&& code.number() == 35
            &&& step_u32(data) matches Step::Done(x, r1)
            &&& x == m
            &&& step_u32(r1) == Step::Done(n, Seq::<u8>::empty())
        }),
        server_payload(ServerMessageView::SetWaitPort { port: m }) matches Some((code, data))
            && code.number() == 2 && step_u32(data) == Step::Done(m, Seq::<u8>::empty()),
        server_payload(ServerMessageView::SetStatus { status: m }) matches Some((code, data))
            && code.number() == 28 && step_u32(data) == Step::Done(m, Seq::<u8>::empty()),
        server_payload(ServerMessageView::GetPeerAddress { username }) matches Some((code, data))
            && code.number() == 3 && step_string(data) == Step::Done(username, Seq::<u8>::empty()),
        server_payload(ServerMessageView::GetUserStats { username }) matches Some((code, data))
            && code.number() == 36 && step_string(data) == Step::Done(username, Seq::<u8>::empty()),
        server_payload(ServerMessageView::ServerPing) matches Some((code, data)) && code.number()
            == 32 && data.len() == 0,
        server_payload(ServerMessageView::RoomList) matches Some((code, data)) && code.number()
            == 64 && data.len() == 0,
{
    lemma_last_number(m);
    lemma_last_number(n);
    law_u32_round_trip(m, u32_bytes(n), Seq::empty());
    lemma_last_string(username);
}

/// What is sent to a peer holds what it is about, in order.
pub proof fn law_peer_messages_hold_their_fields(text: Seq<char>, m: u32, n: u32)
    requires
        short_text(text),
    ensures
        ({
            let search = PeerMessageView::FileSearchRequest { token: m, query: text };
            peer_payload(search) matches Some((code, data)) && code.number() == 8 && (step_u32(
                data,
            ) matches Step::Done(t, r1) && t == m && step_string(r1) == Step::Done(
                text,
                Seq::<u8>::empty(),
            ))
        }),
        ({
            let request = PeerMessageView::TransferRequest {
                direction: m,
                token: n,
                filename: text,
            };
            peer_payload(request) matches Some((code, data)) && code.number() == 40 && (step_u32(
                data,
            ) matches Step::Done(d, r1) && d == m && (step_u32(r1) matches Step::Done(t, r2) && t
                == n && step_string(r2) == Step::Done(text, Seq::<u8>::empty())))
        }),
        peer_payload(PeerMessageView::QueueUpload { filename: text }) matches Some((code, data))
            && code.number() == 43 && step_string(data) == Step::Done(text, Seq::<u8>::empty()),
{
    let none = Seq::<u8>::empty();
    law_string_round_trip(text, none);
    assert(string_field(text) + none =~= string_field(text));
    lemma_u32_round_trip(m, string_field(text));
    lemma_u32_round_trip(n, string_field(text));
    lemma_u32_round_trip(m, u32_bytes(n) + string_field(text));
    assert(u32_bytes(m) + u32_bytes(n) + string_field(text) =~= u32_bytes(m) + (u32_bytes(n)
        + string_field(text)));
}

/// The messages of the server have the numbers that the protocol gives them.
pub proof fn law_server_codes_are_those_of_the_protocol()
    ensures
        ServerCode::Login.number() == 1,
        ServerCode::SetWaitPort.number() == 2,
        ServerCode::GetPeerAddress.number() == 3,
        ServerCode::WatchUser.number() == 5,
        ServerCode::UnwatchUser.number() == 6,
        ServerCode::GetUserStatus.number() == 7,
        ServerCode::SayChatroom.number() == 13,
        ServerCode::JoinRoom.number() == 14,
        ServerCode::LeaveRoom.number() == 15,
        ServerCode::UserJoinedRoom.number() == 16,
        ServerCode::UserLeftRoom.number() == 17,
        ServerCode::ConnectToPeer.number() == 18,
        ServerCode::MessageUser.number() == 22,
        ServerCode::MessageAcked.number() == 23,
        ServerCode::FileSearch.number() == 26,
        ServerCode::SetStatus.number() == 28,
        ServerCode::ServerPing.number() == 32,
        ServerCode::SendUploadSpeed.number() == 34,
        ServerCode::SharedFoldersFiles.number() == 35,
        ServerCode::GetUserStats.number() == 36,
        ServerCode::QueuedDownloads.number() == 40,
        ServerCode::Relogged.number() == 41,
        ServerCode::UserSearch.number() == 42,
        ServerCode::AddUser.number() == 51,
        ServerCode::GetRecommendations.number() == 54,
        ServerCode::GetGlobalRecommendations.number() == 56,
        ServerCode::GetUserInterests.number() == 57,
        ServerCode::AdminCommand.number() == 58,
        ServerCode::PlaceInLineResponse.number() == 60,
        ServerCode::RoomAdded.number() == 62,
        ServerCode::RoomRemoved.number() == 63,
        ServerCode::RoomList.number() == 64,
        ServerCode::ExactFileSearch.number() == 65,
        ServerCode::AdminMessage.number() == 66,
        ServerCode::GlobalUserList.number() == 67,
        ServerCode::TunneledMessage.number() == 68,
        ServerCode::PrivilegedUsers.number() == 69,
        ServerCode::HaveNoParent.number() == 71,
        ServerCode::SearchParent.number() == 73,
        ServerCode::ParentMinSpeed.number() == 83,
        ServerCode::ParentSpeedRatio.number() == 84,
        ServerCode::ParentInactivityTimeout.number() == 86,
        ServerCode::SearchInactivityTimeout.number() == 87,
        ServerCode::MinParentsInCache.number() == 88,
        ServerCode::DistribAliveInterval.number() == 90,
        ServerCode::AddToPrivileged.number() == 91,
        ServerCode::CheckPrivileges.number() == 92,
        ServerCode::EmbeddedMessage.number() == 93,
        ServerCode::AcceptChildren.number() == 100,
        ServerCode::PossibleParents.number() == 102,
        ServerCode::WishlistSearch.number() == 103,
        ServerCode::WishlistInterval.number() == 104,
        ServerCode::GetSimilarUsers.number() == 110,
        ServerCode::GetItemRecommendations.number() == 111,
        ServerCode::GetItemSimilarUsers.number() == 112,
        ServerCode::RoomTickers.number() == 113,
        ServerCode::RoomTickerAdd.number() == 114,
        ServerCode::RoomTickerRemove.number() == 115,
        ServerCode::SetRoomTicker.number() == 116,
        ServerCode::AddHatedInterest.number() == 117,
        ServerCode::RemoveHatedInterest.number() == 118,
        ServerCode::RoomSearch.number() == 120,
        ServerCode::SendUploadSpeed2.number() == 121,
        ServerCode::UserPrivileged.number() == 122,
        ServerCode::GivePrivileges.number() == 123,
        ServerCode::NotifyPrivileges.number() == 124,
        ServerCode::AckNotifyPrivileges.number() == 125,
        ServerCode::BranchLevel.number() == 126,
        ServerCode::BranchRoot.number() == 127,
        ServerCode::ChildDepth.number() == 129,
        ServerCode::ResetDistributed.number() == 130,
        ServerCode::PrivateRoomUsers.number() == 133,
        ServerCode::PrivateRoomAddUser.number() == 134,
        ServerCode::PrivateRoomRemoveUser.number() == 135,
        ServerCode::PrivateRoomDropMembership.number() == 136,
        ServerCode::PrivateRoomDropOwnership.number() == 137,
        ServerCode::PrivateRoomUnknown.number() == 138,
        ServerCode::PrivateRoomAdded.number() == 139,
        ServerCode::PrivateRoomRemoved.number() == 140,
        ServerCode::PrivateRoomToggle.number() == 141,
        ServerCode::ChangePassword.number() == 142,
        ServerCode::PrivateRoomAddOperator.number() == 143,
        ServerCode::PrivateRoomRemoveOperator.number() == 144,
        ServerCode::PrivateRoomOperatorAdded.number() == 145,
        ServerCode::PrivateRoomOperatorRemoved.number() == 146,
        ServerCode::PrivateRoomOwned.number() == 148,
        ServerCode::MessageUsers.number() == 149,
        ServerCode::JoinGlobalRoom.number() == 150,
        ServerCode::LeaveGlobalRoom.number() == 151,
        ServerCode::GlobalRoomMessage.number() == 152,
        ServerCode::RelatedSearch.number() == 153,
        ServerCode::CantConnectToPeer.number() == 1001,
        ServerCode::CantCreateRoom.number() == 1003,
{
}

/// The messages of peers have the numbers that the protocol gives them.
pub proof fn law_peer_codes_are_those_of_the_protocol()
    ensures
        PeerCode::GetSharedFileList.number() == 4,
        PeerCode::SharedFileList.number() == 5,
        PeerCode::FileSearchRequest.number() == 8,
        PeerCode::FileSearchResult.number() == 9,
        PeerCode::UserInfoRequest.number() == 15,
        PeerCode::UserInfoReply.number() == 16,
        PeerCode::FolderContentsRequest.number() == 36,
        PeerCode::FolderContentsReply.number() == 37,
        PeerCode::TransferRequest.number() == 40,
        PeerCode::TransferReply.number() == 41,
        PeerCode::PlaceholdUpload.number() == 42,
        PeerCode::QueueUpload.number() == 43,
        PeerCode::PlaceInQueueReply.number() == 44,
        PeerCode::UploadFailed.number() == 46,
        PeerCode::QueueFailed.number() == 50,
        PeerCode::PlaceInQueueRequest.number() == 51,
        PeerCode::UploadQueueNotification.number() == 52,
{
}

} // verus!
