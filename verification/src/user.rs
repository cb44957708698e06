//! The record the extractor produces: one mutual follower, with the handle
//! used as a filename stem and the canonical profile image URL.

use vstd::prelude::*;

verus! {

/// A mutual follower: a user whose record had both `followed_by` and
/// `following` set. The URL has had its first `_normal` size-suffix token
/// removed, so it names the original-resolution image.
pub struct MutualUser {
    pub username: String,
    pub profile_image_url: String,
}

/// The mathematical model of a `MutualUser`.
pub struct MutualUserV {
    pub username: Seq<char>,
    pub profile_image_url: Seq<char>,
}

impl View for MutualUser {
    type V = MutualUserV;

    open spec fn view(&self) -> MutualUserV {
        MutualUserV { username: self.username@, profile_image_url: self.profile_image_url@ }
    }
}

/// The models of a list of records, in order.
pub open spec fn users_model(users: Seq<MutualUser>) -> Seq<MutualUserV> {
    users.map_values(|u: MutualUser| u@)
}

} // verus!
