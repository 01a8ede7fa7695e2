//! Record keys and the digest that routes a key to its partition.
use vstd::prelude::*;

use crate::buffer::ByteSink;
use crate::errors::Error;
use crate::value::{particle_bytes, particle_type_of, utf8_of, Value};

verus! {

/// The RIPEMD-160 digest of `data`.
pub uninterp spec fn ripemd160_of(data: Seq<u8>) -> Seq<u8>;

/// Relies on rust-crypto's `Ripemd160` (`input`, then `result` into a
/// 20-byte buffer): the RIPEMD-160 digest of `data`, which depends on the
/// bytes alone and is 20 bytes long.
#[verifier::external_body]
fn ripemd160(data: &[u8]) -> (r: Vec<u8>)
    ensures
        r@ == ripemd160_of(data@),
        r@.len() == 20,
{
    let mut hash = crypto::ripemd160::Ripemd160::new();
    crypto::digest::Digest::input(&mut hash, data);
    let mut out = [0u8; 20];
    crypto::digest::Digest::result(&mut hash, &mut out);
    out.to_vec()
}

/// The bytes that are hashed for a key: the set name, the value's type
/// code, the value's particle bytes.
pub open spec fn digest_input(set_name: Seq<char>, v: Value) -> Seq<u8> {
    utf8_of(set_name) + seq![particle_type_of(v)] + particle_bytes(v)
}

/// The digest of a key.
pub open spec fn key_digest(set_name: Seq<char>, v: Value) -> Seq<u8> {
    ripemd160_of(digest_input(set_name, v))
}

/// Nil and maps cannot serve as keys.
pub open spec fn key_value_allowed(v: Value) -> bool {
    !(v is Nil) && !(v is HashMap)
}

/// Computes the 20-byte digest of (`set_name`, `value`). Nil and map
/// values fail with `ParameterError`; bytes to hash that could not be
/// counted in a `usize` fail with the serializer's `InvalidArgument`.
pub fn compute_digest(set_name: &str, value: &Value) -> (r: Result<Vec<u8>, Error>)
    ensures
        match r {
            Ok(d) => key_value_allowed(*value) && digest_input(set_name@, *value).len()
                <= usize::MAX && d@ == key_digest(set_name@, *value) && d@.len() == 20,
            Err(e) => !key_value_allowed(*value) && e is ParameterError || key_value_allowed(
                *value,
            ) && digest_input(set_name@, *value).len() > usize::MAX && e is InvalidArgument,
        },
{
    match value {
        Value::Nil => {
            return Err(Error::ParameterError("Invalid Key `null`".to_owned()));
        },
        Value::HashMap(_) => {
            return Err(Error::ParameterError("Invalid Key: maps are not allowed.".to_owned()));
        },
        _ => {},
    }
    let mut sink = ByteSink::new();
    let ghost s0 = sink@;
    let set_bytes = set_name.as_bytes();
    match sink.write_bytes(set_bytes) {
        Ok(_) => {},
        Err(e) => {
            return Err(e);
        },
    }
    let ghost s1 = sink@;
    match sink.write_u8(value.particle_type()) {
        Ok(_) => {},
        Err(e) => {
            return Err(e);
        },
    }
    let ghost s2 = sink@;
    match value.write_to(&mut sink) {
        Ok(_) => {},
        Err(e) => {
            return Err(e);
        },
    }
    let data = sink.into_data();
    assert(data@ =~= digest_input(set_name@, *value));
    Ok(ripemd160(data.as_slice()))
}

/// Equal inputs give byte-identical digests.
pub proof fn lemma_digest_deterministic(set_a: Seq<char>, a: Value, set_b: Seq<char>, b: Value)
    requires
        set_a == set_b,
        a == b,
    ensures
        digest_input(set_a, a) == digest_input(set_b, b),
        key_digest(set_a, a) == key_digest(set_b, b),
{
}

/// A record key: namespace, set name, user key, and the digest computed
/// from them once at construction.
pub struct Key<'a> {
    pub namespace: &'a str,
    pub set_name: &'a str,
    pub digest: Vec<u8>,
    pub user_key: &'a Value,
}

impl<'a> Key<'a> {
    /// Creates a key and computes its digest.
    pub fn new(namespace: &'a str, set_name: &'a str, key: &'a Value) -> (r: Result<Self, Error>)
        ensures
            match r {
                Ok(k) => key_value_allowed(*key) && digest_input(set_name@, *key).len()
                    <= usize::MAX && k.namespace == namespace && k.set_name == set_name
                    && k.user_key == key && k.digest@ == key_digest(set_name@, *key)
                    && k.digest@.len() == 20,
                Err(e) => !key_value_allowed(*key) && e is ParameterError || key_value_allowed(*key)
                    && digest_input(set_name@, *key).len() > usize::MAX && e is InvalidArgument,
            },
    {
        let digest = compute_digest(set_name, key)?;
        Ok(Key { namespace, set_name, digest, user_key: key })
    }

    /// The key's namespace as text.
    pub fn to_string(&self) -> (r: String)
        ensures
            r@ == self.namespace@,
    {
        self.namespace.to_owned()
    }
}

} // verus!
