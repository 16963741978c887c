//! Tenant namespacing and authentication: mapping a user-visible collection
//! name and a plaintext secret to an internal column-family name, and gating
//! requests by admin token or per-collection secret.

use vstd::prelude::*;
use vstd::string::StrSliceExecFns;
use vstd::string::StringExecFns;
use crate::hash::{sha256_hex, hash_secret_key, lemma_hex_of_len, sha256_of};
use crate::strutil::str_eq;

verus! {

/// The namespace token of a secret: the first eight characters of the
/// hex-encoded SHA-256 of the secret.
pub open spec fn namespace_token_of(secret: Seq<char>) -> Seq<char> {
    sha256_hex(secret).take(8)
}

/// The internal column-family name backing the user-visible name `user`
/// under the tenant holding `secret`.
pub open spec fn internal_name_of(secret: Seq<char>, user: Seq<char>) -> Seq<char> {
    namespace_token_of(secret) + seq!['-'] + user
}

pub fn hash_collection_namespace(secret: &str) -> (r: String)
    ensures
        r@ == namespace_token_of(secret@),
        r@.len() == 8,
{
    let hash = hash_secret_key(secret);
    let token = hash.as_str().substring_char(0, 8);
    proof {
        assert(hash@.subrange(0, 8) =~= sha256_hex(secret@).take(8));
    }
    token.to_owned()
}

/// Join a namespace token and a user-visible name into an internal name.
pub fn join_internal(token: &str, user: &str) -> (r: String)
    ensures
        r@ == token@ + seq!['-'] + user@,
{
    proof {
        reveal_strlit("-");
    }
    let mut out = token.to_owned();
    out.append("-");
    out.append(user);
    proof {
        assert(("-")@ =~= seq!['-']);
    }
    out
}

pub fn internal_name(secret: &str, user: &str) -> (r: String)
    ensures
        r@ == internal_name_of(secret@, user@),
{
    let token = hash_collection_namespace(secret);
    join_internal(token.as_str(), user)
}

/// Distinct namespace tokens isolate tenants: whatever the user-visible
/// name, the derived internal names differ. (Two secrets whose SHA-256
/// digests agree on the first four bytes share a token and are not covered.)
pub proof fn lemma_namespace_isolation(s1: Seq<char>, s2: Seq<char>, user: Seq<char>)
    requires
        namespace_token_of(s1) != namespace_token_of(s2),
    ensures
        internal_name_of(s1, user) != internal_name_of(s2, user),
{
    let t1 = namespace_token_of(s1);
    let t2 = namespace_token_of(s2);
    let n1 = internal_name_of(s1, user);
    let n2 = internal_name_of(s2, user);
    if n1 == n2 {
        if t1.len() == t2.len() {
            assert forall|i: int| 0 <= i < t1.len() implies t1[i] == t2[i] by {
                assert(n1[i] == t1[i]);
                assert(n2[i] == t2[i]);
            }
            assert(t1 =~= t2);
        } else {
            assert(n1.len() != n2.len());
        }
    }
}

/// The same secret and name always derive the same internal name, on any
/// node: the derivation is a pure function of the pair.
pub proof fn lemma_namespace_deterministic(s1: Seq<char>, s2: Seq<char>, u1: Seq<char>, u2: Seq<char>)
    requires
        s1 == s2,
        u1 == u2,
    ensures
        internal_name_of(s1, u1) == internal_name_of(s2, u2),
{
}

/// A secret record: the creation timestamp and the hex-encoded SHA-256 of
/// the plaintext secret key.
pub struct Secret {
    pub created_at: String,
    pub secret: String,
}

impl Clone for Secret {
    fn clone(&self) -> (r: Self)
        ensures
            r.created_at@ == self.created_at@,
            r.secret@ == self.secret@,
    {
        Secret { created_at: self.created_at.clone(), secret: self.secret.clone() }
    }
}

/// Build the record stored for a fresh collection: the hashed secret and
/// the caller's timestamp.
pub fn create_secret(secret_key: &str, timestamp: String) -> (r: Secret)
    ensures
        r.created_at@ == timestamp@,
        r.secret@ == sha256_hex(secret_key@),
{
    Secret { created_at: timestamp, secret: hash_secret_key(secret_key) }
}

/// Whether an admin-token header matches the process admin token.
pub open spec fn admin_token_ok(header: Option<Seq<char>>, admin_token: Seq<char>) -> bool {
    match header {
        Some(h) => h == admin_token,
        None => false,
    }
}

pub fn verify_admin_token(header: Option<&str>, admin_token: &str) -> (r: bool)
    ensures
        r == admin_token_ok(
            match header {
                Some(h) => Some(h@),
                None => None,
            },
            admin_token@,
        ),
{
    match header {
        Some(h) => str_eq(h, admin_token),
        None => false,
    }
}

/// Whether a presented secret hashes to the stored hash. A missing header
/// simply presents no collection-level credential; a missing stored row
/// compares against the empty hash and never matches a real secret.
pub open spec fn collection_secret_ok(
    header: Option<Seq<char>>,
    stored_hash: Seq<char>,
) -> bool {
    match header {
        Some(h) => sha256_hex(h) == stored_hash,
        None => false,
    }
}

pub fn verify_collection_secret(header: Option<&str>, stored: Option<&Secret>) -> (r: bool)
    ensures
        r == collection_secret_ok(
            match header {
                Some(h) => Some(h@),
                None => None,
            },
            match stored {
                Some(s) => s.secret@,
                None => Seq::<char>::empty(),
            },
        ),
{
    let h = match header {
        Some(h) => h,
        None => { return false; },
    };
    let input_hash = hash_secret_key(h);
    match stored {
        Some(s) => str_eq(input_hash.as_str(), s.secret.as_str()),
        None => {
            // The input hash has 64 characters and cannot equal the empty
            // hash of a missing row.
            proof {
                assert(input_hash@.len() == 64);
            }
            false
        },
    }
}

/// The auth gate: a request passes if the admin token matches or the
/// presented secret hashes to the stored one.
pub open spec fn authorized(
    admin_header: Option<Seq<char>>,
    admin_token: Seq<char>,
    secret_header: Option<Seq<char>>,
    stored_hash: Seq<char>,
) -> bool {
    admin_token_ok(admin_header, admin_token) || collection_secret_ok(secret_header, stored_hash)
}

pub fn authorize(
    admin_header: Option<&str>,
    admin_token: &str,
    secret_header: Option<&str>,
    stored: Option<&Secret>,
) -> (r: bool)
    ensures
        r == authorized(
            match admin_header {
                Some(h) => Some(h@),
                None => None,
            },
            admin_token@,
            match secret_header {
                Some(h) => Some(h@),
                None => None,
            },
            match stored {
                Some(s) => s.secret@,
                None => Seq::<char>::empty(),
            },
        ),
{
    if verify_admin_token(admin_header, admin_token) {
        true
    } else {
        verify_collection_secret(secret_header, stored)
    }
}

/// The secret handed out at creation opens the collection: presenting a
/// secret whose hash is the stored one is authorized.
pub proof fn lemma_created_secret_admits(
    admin_header: Option<Seq<char>>,
    admin_token: Seq<char>,
    s: Seq<char>,
    stored_hash: Seq<char>,
)
    requires
        stored_hash == sha256_hex(s),
    ensures
        authorized(admin_header, admin_token, Some(s), stored_hash),
{
}

/// Any other presented secret whose hash differs is refused, unless the
/// admin token matches. (A different secret whose SHA-256 collides with
/// the stored one is not covered.)
pub proof fn lemma_wrong_secret_refused(
    admin_header: Option<Seq<char>>,
    admin_token: Seq<char>,
    other: Seq<char>,
    stored_hash: Seq<char>,
)
    requires
        sha256_hex(other) != stored_hash,
        !admin_token_ok(admin_header, admin_token),
    ensures
        !authorized(admin_header, admin_token, Some(other), stored_hash),
{
}


/// The internal collection name a request resolved to, as the resolver
/// attaches it to the request.
pub struct InternalCollection(pub String);

/// The plaintext secret a request carried or was given, as the resolver
/// attaches it to the request.
pub struct SecretKey(pub String);

/// The collection name an authorized request acted for.
pub struct CollectionAuth {
    pub name: String,
}

impl CollectionAuth {
    pub fn new(name: String) -> (r: CollectionAuth)
        ensures
            r.name@ == name@,
    {
        CollectionAuth { name }
    }
}

/// What a request addresses: the user-visible collection name, the key
/// from the path if one is there, the resolved internal name, and the
/// presented secret if any.
pub struct CollectionPath {
    pub user_collection: String,
    pub path_key: Option<String>,
    pub internal_collection: String,
    pub secret_key: Option<String>,
}

impl CollectionPath {
    /// The user-visible name.
    pub fn user_collection(&self) -> (r: &str)
        ensures
            r@ == self.user_collection@,
    {
        self.user_collection.as_str()
    }

    /// The key from the path, if the route carries one.
    pub fn path_key(&self) -> (r: Option<&str>)
        ensures
            match r {
                Some(k) => self.path_key matches Some(s) && k@ == s@,
                None => self.path_key is None,
            },
    {
        match &self.path_key {
            Some(k) => Some(k.as_str()),
            None => None,
        }
    }

    /// The internal name the storage engine addresses.
    pub fn internal_collection(&self) -> (r: &str)
        ensures
            r@ == self.internal_collection@,
    {
        self.internal_collection.as_str()
    }

    /// The presented secret, if any.
    pub fn secret_key(&self) -> (r: Option<&str>)
        ensures
            match r {
                Some(k) => self.secret_key matches Some(s) && k@ == s@,
                None => self.secret_key is None,
            },
    {
        match &self.secret_key {
            Some(k) => Some(k.as_str()),
            None => None,
        }
    }
}

/// The resolver as a middleware: it wraps a service and annotates each
/// request under the API scope with its resolution.
pub struct CollectionNamespace;

/// The wrapped service the resolver forwards to.
pub struct CollectionNamespaceMiddleware<S> {
    pub service: S,
}

} // verus!
