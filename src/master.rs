//! The directory server: it routes requests, keeps the backend registry, and
//! answers data requests with redirects to the backend that holds the key.
//!
//! The durable index from key to backend lives outside this module; each
//! step that depends on it takes the index's answer as an argument.
use vstd::prelude::*;

use crate::keys::{
    canonical_id, get_key, has_prefix, key_of, location, location_of, ADMIN_PREFIX, STORE_PREFIX,
};
use crate::registry::{
    bumped, dropped, has_id, lemma_placement_in_range, placement, registered, with_volume,
    Registry,
};
use crate::service::Method;

verus! {

/// Relies on `rand::random`: a value drawn from the thread-local generator.
/// Nothing is known of the value.
pub assume_specification<T>[ rand::random::<T> ]() -> (r: T)
    where
        rand::distributions::Standard: rand::distributions::Distribution<T>,
;

/// Reply to an add of a backend that was not registered.
pub const VOLUME_ADDED: &'static str = "Volume added";

/// Reply to an add of a backend that is registered already.
pub const DUPLICATE_VOLUME: &'static str = "Skipping duplicate volume server";

/// The verb of the control plane that registers a backend.
pub const ADD_VOLUME: &'static str = "add-volume";

/// An error of the durable index.
#[derive(PartialEq, Eq, Structural, Clone, Copy, Debug)]
pub struct IndexError;

/// The responses of the directory server.
#[derive(Debug, PartialEq, Eq)]
pub enum ResponseKind {
    /// 307, to `<backend>/<key>`.
    Redirect(String),
    /// 200, with a text.
    Success(String),
    /// 404: the key is not in the index.
    NotFound,
    /// 500: the index failed.
    ServerError,
    /// 405.
    NotAllowed,
    /// 503: no backend is registered.
    Unavailable,
    /// 404: the URL is under no known prefix.
    PathNotFound,
}

impl ResponseKind {
    /// The HTTP status code of a response.
    pub open spec fn status_of(&self) -> u16 {
        match self {
            ResponseKind::Redirect(_) => 307,
            ResponseKind::Success(_) => 200,
            ResponseKind::NotFound => 404,
            ResponseKind::ServerError => 500,
            ResponseKind::NotAllowed => 405,
            ResponseKind::Unavailable => 503,
            ResponseKind::PathNotFound => 404,
        }
    }

    /// The body of a response.
    pub open spec fn body_of(&self) -> Seq<char> {
        match self {
            ResponseKind::Redirect(_) => Seq::empty(),
            ResponseKind::Success(text) => text@,
            ResponseKind::NotFound => "Key not found"@,
            ResponseKind::ServerError => "Server error"@,
            ResponseKind::NotAllowed => "Method not allowed"@,
            ResponseKind::Unavailable => "Service unavailable"@,
            ResponseKind::PathNotFound => "Path not found"@,
        }
    }

    /// Returns the HTTP status code.
    pub fn status(&self) -> (code: u16)
        ensures
            code == self.status_of(),
    {
        match self {
            ResponseKind::Redirect(_) => 307,
            ResponseKind::Success(_) => 200,
            ResponseKind::NotFound => 404,
            ResponseKind::ServerError => 500,
            ResponseKind::NotAllowed => 405,
            ResponseKind::Unavailable => 503,
            ResponseKind::PathNotFound => 404,
        }
    }

    /// Returns the body text.
    pub fn body(&self) -> (text: String)
        ensures
            text@ == self.body_of(),
    {
        match self {
            ResponseKind::Redirect(_) => String::new(),
            ResponseKind::Success(text) => text.clone(),
            ResponseKind::NotFound => "Key not found".to_owned(),
            ResponseKind::ServerError => "Server error".to_owned(),
            ResponseKind::NotAllowed => "Method not allowed".to_owned(),
            ResponseKind::Unavailable => "Service unavailable".to_owned(),
            ResponseKind::PathNotFound => "Path not found".to_owned(),
        }
    }

    /// Returns the `Location` of a redirect.
    pub fn location(&self) -> (loc: Option<String>)
        ensures
            match self {
                ResponseKind::Redirect(to) => loc matches Some(l) && l@ == to@,
                _ => loc is None,
            },
    {
        match self {
            ResponseKind::Redirect(to) => Some(to.clone()),
            _ => None,
        }
    }
}

impl Default for ResponseKind {
    fn default() -> (r: ResponseKind)
        ensures
            r is NotAllowed,
    {
        ResponseKind::NotAllowed
    }
}

/// Where a request goes, by the prefix of its URL.
#[derive(Debug, PartialEq, Eq)]
pub enum Route {
    /// Under `/store/`, with the key.
    Store(String),
    /// Under `/admin/`, with the verb.
    Admin(String),
    /// Under neither.
    Unknown,
}

/// Returns the route of a request URL.
pub fn route(url: &str) -> (r: Route)
    ensures
        match r {
            Route::Store(key) => STORE_PREFIX@.is_prefix_of(url@) && key@ == key_of(
                url@,
                STORE_PREFIX@,
            ),
            Route::Admin(verb) => !STORE_PREFIX@.is_prefix_of(url@) && ADMIN_PREFIX@.is_prefix_of(
                url@,
            ) && verb@ == key_of(url@, ADMIN_PREFIX@),
            Route::Unknown => !STORE_PREFIX@.is_prefix_of(url@) && !ADMIN_PREFIX@.is_prefix_of(
                url@,
            ),
        },
{
    if has_prefix(url, STORE_PREFIX) {
        Route::Store(get_key(url, STORE_PREFIX))
    } else if has_prefix(url, ADMIN_PREFIX) {
        Route::Admin(get_key(url, ADMIN_PREFIX))
    } else {
        Route::Unknown
    }
}

/// What a request under `/admin/` asks for.
#[derive(PartialEq, Eq, Structural, Clone, Copy, Debug)]
pub enum AdminAction {
    /// Register the backend named in the body.
    AddVolume,
    /// A known verb with the wrong method: 405.
    NotAllowed,
    /// An unknown verb: 404.
    NotFound,
}

/// Returns what an admin request for `verb` with `method` asks for.
pub fn admin_action(verb: &str, method: Method) -> (a: AdminAction)
    ensures
        verb@ == ADD_VOLUME@ && method == Method::Post ==> a == AdminAction::AddVolume,
        verb@ == ADD_VOLUME@ && method != Method::Post ==> a == AdminAction::NotAllowed,
        verb@ != ADD_VOLUME@ ==> a == AdminAction::NotFound,
{
    if verb.to_owned() == ADD_VOLUME.to_owned() {
        match method {
            Method::Post => AdminAction::AddVolume,
            _ => AdminAction::NotAllowed,
        }
    } else {
        AdminAction::NotFound
    }
}

/// The directory's state: its registry of backends.
pub struct Master {
    volumes: Registry,
}

impl View for Master {
    type V = Seq<(Seq<char>, u32)>;

    closed spec fn view(&self) -> Seq<(Seq<char>, u32)> {
        self.volumes@
    }
}

impl Master {
    /// The directory's invariant: that of its registry.
    pub closed spec fn wf(&self) -> bool {
        self.volumes.wf()
    }

    /// A directory with `volumes` registered, each in canonical form and each
    /// once, with zero counts.
    pub fn new(volumes: Vec<String>) -> (m: Master)
        ensures
            m.wf(),
            m@ == registered(volumes@.map_values(|s: String| s@)),
    {
        Master { volumes: Registry::from_urls(&volumes) }
    }

    /// The registry.
    pub fn volumes(&self) -> (r: &Registry)
        requires
            self.wf(),
        ensures
            r.wf(),
            r@ == self@,
    {
        &self.volumes
    }

    /// Registers the backend `url` (in canonical form) unless it is there.
    pub fn add_volume(&mut self, url: String) -> (r: ResponseKind)
        requires
            old(self).wf(),
        ensures
            final(self).wf(),
            final(self)@ == with_volume(old(self)@, canonical_id(url@)),
            r matches ResponseKind::Success(text) && text@ == if has_id(
                old(self)@,
                canonical_id(url@),
            ) {
                DUPLICATE_VOLUME@
            } else {
                VOLUME_ADDED@
            },
    {
        if self.volumes.add(url.as_str()) {
            ResponseKind::Success(VOLUME_ADDED.to_owned())
        } else {
            ResponseKind::Success(DUPLICATE_VOLUME.to_owned())
        }
    }

    /// Picks the backend for a new key on draw `draw`; `Unavailable` when no
    /// backend is registered.
    pub fn place(&self, draw: u32) -> (r: Result<String, ResponseKind>)
        requires
            self.wf(),
        ensures
            r is Err <==> self@.len() == 0,
            r matches Err(e) ==> e is Unavailable,
            r matches Ok(b) ==> b@ == self@[placement(self@, draw)].0,
    {
        match self.volumes.pick(draw) {
            Some(b) => Ok(b),
            None => Err(ResponseKind::Unavailable),
        }
    }

    /// Picks the backend for a new key on a random draw; `Unavailable` when
    /// no backend is registered.
    pub fn key_to_volume(&self) -> (r: Result<String, ResponseKind>)
        requires
            self.wf(),
        ensures
            r is Err <==> self@.len() == 0,
            r matches Err(e) ==> e is Unavailable,
            r matches Ok(b) ==> has_id(self@, b@),
    {
        let draw: u32 = rand::random::<u32>();
        let r = self.place(draw);
        proof {
            if self@.len() > 0 {
                lemma_placement_in_range(self@, draw, 0);
            }
        }
        r
    }

    /// The answer to a read of `key`, given what the index holds for it.
    pub fn get(key: &str, lookup: Result<Option<String>, IndexError>) -> (r: ResponseKind)
        ensures
            match lookup {
                Ok(Some(b)) => r matches ResponseKind::Redirect(to) && to@ == location(b@, key@),
                Ok(None) => r is NotFound,
                Err(_) => r is ServerError,
            },
    {
        match lookup {
            Ok(Some(b)) => ResponseKind::Redirect(location_of(b.as_str(), key)),
            Ok(None) => ResponseKind::NotFound,
            Err(_) => ResponseKind::ServerError,
        }
    }

    /// Completes a write of `key` placed on `backend`, given how the index
    /// write went: on success the backend counts one more key and the client
    /// is sent there.
    pub fn save(&mut self, key: &str, backend: &str, written: Result<(), IndexError>) -> (r:
        ResponseKind)
        requires
            old(self).wf(),
        ensures
            final(self).wf(),
            written is Ok ==> final(self)@ == bumped(old(self)@, backend@),
            written is Ok ==> (r matches ResponseKind::Redirect(to) && to@ == location(
                backend@,
                key@,
            )),
            written is Err ==> final(self)@ == old(self)@ && r is ServerError,
    {
        match written {
            Ok(()) => {
                self.volumes.increment(backend);
                ResponseKind::Redirect(location_of(backend, key))
            },
            Err(_) => ResponseKind::ServerError,
        }
    }

    /// The backend whose entry a delete removes, given what the index holds
    /// for the key; otherwise the answer to the delete.
    pub fn delete_target(lookup: Result<Option<String>, IndexError>) -> (r: Result<
        String,
        ResponseKind,
    >)
        ensures
            match lookup {
                Ok(Some(b)) => r matches Ok(t) && t@ == b@,
                Ok(None) => r matches Err(e) && e is NotFound,
                Err(_) => r matches Err(e) && e is ServerError,
            },
    {
        match lookup {
            Ok(Some(b)) => Ok(b),
            Ok(None) => Err(ResponseKind::NotFound),
            Err(_) => Err(ResponseKind::ServerError),
        }
    }

    /// Completes a delete of `key` that was placed on `backend`, given how the
    /// index removal went: on success the backend counts one key less and the
    /// client is sent there.
    pub fn delete(&mut self, key: &str, backend: &str, removed: Result<(), IndexError>) -> (r:
        ResponseKind)
        requires
            old(self).wf(),
        ensures
            final(self).wf(),
            removed is Ok ==> final(self)@ == dropped(old(self)@, backend@),
            removed is Ok ==> (r matches ResponseKind::Redirect(to) && to@ == location(
                backend@,
                key@,
            )),
            removed is Err ==> final(self)@ == old(self)@ && r is ServerError,
    {
        match removed {
            Ok(()) => {
                self.volumes.decrement(backend);
                ResponseKind::Redirect(location_of(backend, key))
            },
            Err(_) => ResponseKind::ServerError,
        }
    }
}

} // verus!
