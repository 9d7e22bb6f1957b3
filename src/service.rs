//! What the two servers share: the request methods they tell apart and the
//! data-plane verbs those methods ask for.
use vstd::prelude::*;

verus! {

/// The method of an HTTP request, as far as the servers tell methods apart.
#[derive(PartialEq, Eq, Structural, Clone, Copy, Debug)]
pub enum Method {
    Get,
    Put,
    Post,
    Delete,
    Other,
}

/// What a request under `/store/` asks of a server.
#[derive(PartialEq, Eq, Structural, Clone, Copy, Debug)]
pub enum StoreAction {
    /// Read the value of the key.
    Get,
    /// Write the value of the key.
    Save,
    /// Remove the key.
    Delete,
    /// The method is not one of the data-plane verbs.
    NotAllowed,
}

/// The data-plane verb of a method: `PUT` and `POST` both write.
pub open spec fn action_of(method: Method) -> StoreAction {
    match method {
        Method::Get => StoreAction::Get,
        Method::Put | Method::Post => StoreAction::Save,
        Method::Delete => StoreAction::Delete,
        Method::Other => StoreAction::NotAllowed,
    }
}

/// Returns the data-plane verb that `method` asks for.
pub fn store_action(method: Method) -> (a: StoreAction)
    ensures
        a == action_of(method),
{
    match method {
        Method::Get => StoreAction::Get,
        Method::Put | Method::Post => StoreAction::Save,
        Method::Delete => StoreAction::Delete,
        Method::Other => StoreAction::NotAllowed,
    }
}

} // verus!
