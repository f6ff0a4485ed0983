//! Wire shapes of the friends API.

use vstd::prelude::*;

verus! {

/// One friend as listed to the client.
#[derive(Debug, Clone)]
pub struct FriendUser {
    pub user_id: String,
    pub username: String,
}

/// A freshly minted friend code.
#[derive(Debug, Clone)]
pub struct InviteResponse {
    pub code: String,
}

/// `POST /api/friends/add` body.
#[derive(Debug, Clone)]
pub struct AddBody {
    pub code: String,
}

/// `POST /api/friends/remove` body.
#[derive(Debug, Clone)]
pub struct RemoveBody {
    pub user_id: String,
}

} // verus!
