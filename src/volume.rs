//! The blob server: where the value of each key lives on disk, the plan of
//! an atomic publish, the responses to data requests, and the server's
//! registration with the directory.
//!
//! The file system work itself happens outside this module; each step that
//! depends on it takes its outcome as an argument.
use vstd::prelude::*;
use vstd::utf8::encode_utf8;

use crate::keys::{canonical_id, canonical_url, ADMIN_PREFIX};
use crate::master::ADD_VOLUME;

verus! {

/// The MD5 digest of `data`.
pub uninterp spec fn md5_digest(data: Seq<u8>) -> Seq<u8>;

/// The lowercase hex digit of a value below sixteen.
pub open spec fn hex_digit(v: int) -> char {
    "0123456789abcdef"@[v]
}

/// `bytes` in lowercase hex, two digits per byte, high digit first.
pub open spec fn lower_hex(bytes: Seq<u8>) -> Seq<char>
    decreases bytes.len(),
{
    if bytes.len() == 0 {
        Seq::empty()
    } else {
        lower_hex(bytes.drop_last()) + seq![
            hex_digit(bytes.last() as int / 16),
            hex_digit(bytes.last() as int % 16),
        ]
    }
}

/// Relies on `md5::compute` for the digest of `data`, and on the `LowerHex`
/// formatting of `md5::Digest`, which writes each of its sixteen bytes as two
/// lowercase hex digits, in order.
#[verifier::external_body]
fn md5_hex(data: &[u8]) -> (hex: String)
    ensures
        hex@ == lower_hex(md5_digest(data@)),
        hex@.len() == 32,
{
    format!("{:x}", md5::compute(data))
}

/// The lowercase hex MD5 of the UTF-8 bytes of `key`.
pub open spec fn key_hex(key: Seq<char>) -> Seq<char> {
    lower_hex(md5_digest(encode_utf8(key)))
}

/// The directory of a blob: `<root>/<h0>/<h1>`.
pub open spec fn blob_dir(root: Seq<char>, hex: Seq<char>) -> Seq<char> {
    root + seq!['/', hex[0], '/', hex[1]]
}

/// The path of a blob: `<root>/<h0>/<h1>/<h2..>`.
pub open spec fn blob_path(root: Seq<char>, hex: Seq<char>) -> Seq<char> {
    blob_dir(root, hex) + seq!['/'] + hex.skip(2)
}

/// The directory of files being written: `<root>/tmp`.
pub open spec fn tmp_dir_of(root: Seq<char>) -> Seq<char> {
    root + seq!['/', 't', 'm', 'p']
}

/// An error of the file system.
#[derive(PartialEq, Eq, Structural, Clone, Copy, Debug)]
pub struct StorageError;

/// The responses of the blob server.
#[derive(Debug, PartialEq, Eq)]
pub enum ResponseKind {
    /// 200, with the content of the file at this path.
    FilePath(String),
    /// 201: the value is published.
    Created,
    /// 204: the value is removed.
    Deleted,
    /// 500: the file system failed.
    ServerError,
    /// 405.
    NotAllowed,
}

impl ResponseKind {
    /// The HTTP status code of a response.
    pub open spec fn status_of(&self) -> u16 {
        match self {
            ResponseKind::FilePath(_) => 200,
            ResponseKind::Created => 201,
            ResponseKind::Deleted => 204,
            ResponseKind::ServerError => 500,
            ResponseKind::NotAllowed => 405,
        }
    }

    /// The body text of a response; a file response carries the file instead.
    pub open spec fn body_of(&self) -> Seq<char> {
        match self {
            ResponseKind::FilePath(_) => Seq::empty(),
            ResponseKind::Created => "Created"@,
            ResponseKind::Deleted => "Deleted"@,
            ResponseKind::ServerError => "Server error"@,
            ResponseKind::NotAllowed => "Method not allowed"@,
        }
    }

    /// Returns the HTTP status code.
    pub fn status(&self) -> (code: u16)
        ensures
            code == self.status_of(),
    {
        match self {
            ResponseKind::FilePath(_) => 200,
            ResponseKind::Created => 201,
            ResponseKind::Deleted => 204,
            ResponseKind::ServerError => 500,
            ResponseKind::NotAllowed => 405,
        }
    }

    /// Returns the body text.
    pub fn body(&self) -> (text: String)
        ensures
            text@ == self.body_of(),
    {
        match self {
            ResponseKind::FilePath(_) => String::new(),
            ResponseKind::Created => "Created".to_owned(),
            ResponseKind::Deleted => "Deleted".to_owned(),
            ResponseKind::ServerError => "Server error".to_owned(),
            ResponseKind::NotAllowed => "Method not allowed".to_owned(),
        }
    }
}

impl Default for ResponseKind {
    fn default() -> (r: ResponseKind)
        ensures
            r is NotAllowed,
    {
        ResponseKind::NotAllowed
    }
}

/// The files of an atomic publish: the value is written to a new file in
/// `tmp_dir`, `dir` is created, and the file is renamed onto `path`.
#[derive(Debug, PartialEq, Eq)]
pub struct Publish {
    pub tmp_dir: String,
    pub dir: String,
    pub path: String,
}

/// The blob store under one data directory.
pub struct Volume {
    data_dir: String,
}

impl Volume {
    /// The data directory.
    pub closed spec fn root(&self) -> Seq<char> {
        self.data_dir@
    }

    /// A blob store under `data_dir`.
    pub fn new(data_dir: String) -> (v: Volume)
        ensures
            v.root() == data_dir@,
    {
        Volume { data_dir }
    }

    /// Returns the directory of files being written.
    pub fn tmp_dir(&self) -> (dir: String)
        ensures
            dir@ == tmp_dir_of(self.root()),
    {
        let mut dir = self.data_dir.clone();
        dir.append("/tmp");
        proof {
            reveal_strlit("/tmp");
            assert(dir@ =~= tmp_dir_of(self.root()));
        }
        dir
    }

    /// Returns the directory and the path of the blob of `key`.
    fn blob_location(&self, key: &str) -> (r: (String, String))
        ensures
            r.0@ == blob_dir(self.root(), key_hex(key@)),
            r.1@ == blob_path(self.root(), key_hex(key@)),
    {
        let hex = md5_hex(key.as_bytes());
        let h = hex.as_str();
        let mut dir = self.data_dir.clone();
        dir.append("/");
        dir.append(h.substring_char(0, 1));
        dir.append("/");
        dir.append(h.substring_char(1, 2));
        let mut path = dir.clone();
        path.append("/");
        path.append(h.substring_char(2, 32));
        proof {
            reveal_strlit("/");
            assert(h@ == key_hex(key@));
            assert(dir@ =~= blob_dir(self.root(), h@));
            assert(h@.subrange(2, 32) =~= h@.skip(2));
            assert(path@ =~= blob_path(self.root(), h@));
        }
        (dir, path)
    }

    /// Returns the path of the blob of `key`: `<root>/<h0>/<h1>/<h2..>`
    /// where `h` is the lowercase hex MD5 of the key's UTF-8 bytes.
    pub fn key_to_path(&self, key: &str) -> (path: String)
        ensures
            path@ == blob_path(self.root(), key_hex(key@)),
    {
        self.blob_location(key).1
    }

    /// The answer to a read of `key`: the file of its blob.
    pub fn get(&self, key: &str) -> (r: ResponseKind)
        ensures
            r matches ResponseKind::FilePath(p) && p@ == blob_path(self.root(), key_hex(key@)),
    {
        ResponseKind::FilePath(self.key_to_path(key))
    }

    /// The files of a write of `key`.
    pub fn save(&self, key: &str) -> (p: Publish)
        ensures
            p.tmp_dir@ == tmp_dir_of(self.root()),
            p.dir@ == blob_dir(self.root(), key_hex(key@)),
            p.path@ == blob_path(self.root(), key_hex(key@)),
    {
        let (dir, path) = self.blob_location(key);
        Publish { tmp_dir: self.tmp_dir(), dir, path }
    }

    /// The answer to a write, given how the publish went.
    pub fn saved(published: Result<(), StorageError>) -> (r: ResponseKind)
        ensures
            published is Ok ==> r is Created,
            published is Err ==> r is ServerError,
    {
        match published {
            Ok(()) => ResponseKind::Created,
            Err(_) => ResponseKind::ServerError,
        }
    }

    /// The file that a delete of `key` removes.
    pub fn delete(&self, key: &str) -> (path: String)
        ensures
            path@ == blob_path(self.root(), key_hex(key@)),
    {
        self.key_to_path(key)
    }

    /// The answer to a delete, given how the removal of the file went.
    pub fn deleted(removed: Result<(), StorageError>) -> (r: ResponseKind)
        ensures
            removed is Ok ==> r is Deleted,
            removed is Err ==> r is ServerError,
    {
        match removed {
            Ok(()) => ResponseKind::Deleted,
            Err(_) => ResponseKind::ServerError,
        }
    }
}

/// What a blob server does about the directory at startup.
#[derive(Debug, PartialEq, Eq)]
pub enum Registration {
    /// No directory is configured: nothing.
    Skip,
    /// Post `body` to `url`.
    Register { url: String, body: String },
    /// A directory is configured without the server's own base URL.
    MissingBaseUrl,
}

/// Returns how a blob server with directory `master_url` and own URL
/// `base_url` registers: by a post of its canonical URL to the directory's
/// add-volume endpoint.
pub fn registration(master_url: Option<&str>, base_url: Option<&str>) -> (r: Registration)
    ensures
        master_url is None ==> r is Skip,
        master_url is Some && base_url is None ==> r is MissingBaseUrl,
        master_url matches Some(m) ==> (base_url matches Some(b) ==> (r matches Registration::Register {
            url,
            body,
        } && url@ == canonical_id(m@) + ADMIN_PREFIX@ + ADD_VOLUME@ && body@ == canonical_id(b@))),
{
    match master_url {
        None => Registration::Skip,
        Some(m) => match base_url {
            None => Registration::MissingBaseUrl,
            Some(b) => {
                let mut url = canonical_url(m);
                url.append(ADMIN_PREFIX);
                url.append(ADD_VOLUME);
                Registration::Register { url, body: canonical_url(b) }
            },
        },
    }
}

} // verus!
