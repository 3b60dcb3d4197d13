//! Plain data carried between the gateway, the permission resolver and the
//! external store. Identifiers are 64-bit integers, times are Unix seconds.

use vstd::prelude::*;

verus! {

/// The kind of a channel; it decides which payloads a channel accepts.
#[derive(Clone, Copy, Debug, PartialEq, Eq, Structural)]
pub enum ChannelType {
    Text,
    Voice,
    /// Read-only for everyone but the server's owner and administrators.
    Announcement,
}

/// A role of a server, with its capability bitfield and its precedence.
#[derive(Clone, Debug)]
pub struct Role {
    pub role_id: u64,
    pub name: String,
    pub permissions: u64,
    pub color: String,
    /// Higher position means higher precedence.
    pub position: i32,
}

/// A user's membership in a server.
#[derive(Clone, Debug)]
pub struct Member {
    pub user_id: u64,
    pub roles: Vec<u64>,
    pub joined_at: i64,
}

/// A per-channel, per-role adjustment of the role's capabilities.
#[derive(Clone, Copy, Debug, PartialEq, Eq, Structural)]
pub struct PermissionOverride {
    pub role_id: u64,
    pub allow: u64,
    pub deny: u64,
}

#[derive(Clone, Debug)]
pub struct Channel {
    pub id: u64,
    pub server_id: u64,
    pub name: String,
    pub channel_type: ChannelType,
    pub topic: Option<String>,
    pub position: i32,
    pub permissions: Vec<PermissionOverride>,
    pub created_at: i64,
}

#[derive(Clone, Debug)]
pub struct Server {
    pub id: u64,
    pub name: String,
    pub icon_url: Option<String>,
    pub owner_id: u64,
    pub roles: Vec<Role>,
    pub channels: Vec<u64>,
    pub members: Vec<Member>,
    pub created_at: i64,
}

/// Name of the role that every new server starts with.
pub open spec fn everyone_name() -> Seq<char> {
    seq!['@', 'e', 'v', 'e', 'r', 'y', 'o', 'n', 'e']
}

/// Capabilities of the role that every new server starts with.
pub const EVERYONE_PERMISSIONS: u64 = 0x1;

/// A new server named `name`, owned by `owner_id`, created at `now`: its one
/// role is `@everyone` (white, position 0, reading only), its one member the
/// owner, holding no role, and it has no channel yet. The ids come from the
/// store.
pub fn create_server(id: u64, name: String, owner_id: u64, everyone_role_id: u64, now: i64) -> (s:
    Server)
    ensures
        s.id == id,
        s.name@ == name@,
        s.icon_url is None,
        s.owner_id == owner_id,
        s.roles@.len() == 1,
        s.roles@[0].role_id == everyone_role_id,
        s.roles@[0].name@ == everyone_name(),
        s.roles@[0].permissions == EVERYONE_PERMISSIONS,
        s.roles@[0].position == 0,
        s.roles@[0].color@ == seq!['#', 'f', 'f', 'f', 'f', 'f', 'f'],
        s.channels@.len() == 0,
        s.members@.len() == 1,
        s.members@[0].user_id == owner_id,
        s.members@[0].roles@.len() == 0,
        s.members@[0].joined_at == now,
        s.created_at == now,
{
    let everyone = Role {
        role_id: everyone_role_id,
        name: String::from_str("@everyone"),
        permissions: EVERYONE_PERMISSIONS,
        color: String::from_str("#ffffff"),
        position: 0,
    };
    proof {
        reveal_strlit("@everyone");
        reveal_strlit("#ffffff");
        assert(everyone.name@ =~= everyone_name());
        assert(everyone.color@ =~= seq!['#', 'f', 'f', 'f', 'f', 'f', 'f']);
    }
    let mut roles: Vec<Role> = Vec::new();
    roles.push(everyone);
    let mut members: Vec<Member> = Vec::new();
    members.push(Member { user_id: owner_id, roles: Vec::new(), joined_at: now });
    Server {
        id,
        name,
        icon_url: None,
        owner_id,
        roles,
        channels: Vec::new(),
        members,
        created_at: now,
    }
}

#[derive(Clone, Debug)]
pub struct RegisterRequest {
    pub username: String,
    pub email: String,
    pub password: String,
}

#[derive(Clone, Debug)]
pub struct LoginRequest {
    pub email: String,
    pub password: String,
}

#[derive(Clone, Debug)]
pub struct UserResponse {
    pub id: String,
    pub username: String,
    pub email: String,
}

#[derive(Clone, Debug)]
pub struct AuthResponse {
    pub access_token: String,
    pub refresh_token: String,
    pub user: UserResponse,
}

#[derive(Clone, Debug)]
pub struct CreateServerRequest {
    pub name: String,
    pub description: Option<String>,
}

#[derive(Clone, Debug)]
pub struct CreateChannelRequest {
    pub name: String,
    pub channel_type: String,
    pub topic: Option<String>,
}

#[derive(Clone, Debug)]
pub struct SendMessageRequest {
    pub content: String,
    pub attachments: Option<Vec<String>>,
}

} // verus!
