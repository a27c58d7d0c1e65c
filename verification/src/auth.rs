use crate::messages::Auth;
use crate::server::User;
use vstd::prelude::*;
use vstd::string::*;

verus! {

/// Whom a token stands for, if anyone: at present, every token stands for the user whose name
/// it spells.
pub open spec fn spec_auth(token: Seq<char>) -> Option<Seq<char>> {
    Some(token)
}

/// Decides whether `request` is accepted, and as whom.
pub fn auth(request: Auth) -> (user: Option<User>)
    ensures
        match spec_auth(request.jwt_token@) {
            Some(name) => user is Some && user->0@ == name,
            None => user is None,
        },
{
    Some(User { username: request.jwt_token.to_owned() })
}

} // verus!
