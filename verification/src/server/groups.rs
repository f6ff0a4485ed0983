//! Wire shapes of the groups API.

use vstd::prelude::*;

verus! {

/// One member of a group.
#[derive(Debug, Clone)]
pub struct GroupMember {
    pub username: String,
    pub is_owner: bool,
}

/// A group as listed to one of its members.
#[derive(Debug, Clone)]
pub struct FriendGroup {
    pub id: String,
    pub name: String,
    /// Whether the requesting user owns the group.
    pub is_owner: bool,
    pub members: Vec<GroupMember>,
}

/// `POST /api/groups` body.
#[derive(Debug, Clone)]
pub struct CreateGroupBody {
    pub name: String,
}

/// A freshly minted group invite code.
#[derive(Debug, Clone)]
pub struct InviteResponse {
    pub code: String,
}

/// `POST /api/groups/join` body.
#[derive(Debug, Clone)]
pub struct JoinBody {
    pub code: String,
}

} // verus!
