use vstd::prelude::*;

use crate::error::Error;
use vstd::slice::slice_to_vec;

verus! {

/// Width of a key or script hash.
pub const HASH_LEN: usize = 28;

/// What a credential identifies: a key or a script, by its 28-byte hash.
#[derive(Debug, Clone)]
pub enum Credential {
    KeyHash(Vec<u8>),
    ScriptHash(Vec<u8>),
}

/// The mathematical value of a credential.
pub enum CredentialView {
    KeyHash(Seq<u8>),
    ScriptHash(Seq<u8>),
}

impl CredentialView {
    pub open spec fn hash(self) -> Seq<u8> {
        match self {
            CredentialView::KeyHash(h) => h,
            CredentialView::ScriptHash(h) => h,
        }
    }

    pub open spec fn is_script(self) -> bool {
        self is ScriptHash
    }

    pub open spec fn wf(self) -> bool {
        self.hash().len() == HASH_LEN
    }
}

impl View for Credential {
    type V = CredentialView;

    open spec fn view(&self) -> CredentialView {
        match self {
            Credential::KeyHash(h) => CredentialView::KeyHash(h@),
            Credential::ScriptHash(h) => CredentialView::ScriptHash(h@),
        }
    }
}

impl Credential {
    /// A key-hash credential; `InvalidLength` unless `hash` is 28 bytes.
    pub fn from_keyhash(hash: &[u8]) -> (r: Result<Credential, Error>)
        ensures
            hash@.len() == HASH_LEN ==> (r matches Ok(c) && c@ == CredentialView::KeyHash(hash@)),
            hash@.len() != HASH_LEN ==> r == Err::<Credential, Error>(Error::InvalidLength),
    {
        if hash.len() != HASH_LEN {
            return Err(Error::InvalidLength);
        }
        Ok(Credential::KeyHash(slice_to_vec(hash)))
    }

    /// A script-hash credential; `InvalidLength` unless `hash` is 28 bytes.
    pub fn from_scripthash(hash: &[u8]) -> (r: Result<Credential, Error>)
        ensures
            hash@.len() == HASH_LEN ==> (r matches Ok(c) && c@ == CredentialView::ScriptHash(
                hash@,
            )),
            hash@.len() != HASH_LEN ==> r == Err::<Credential, Error>(Error::InvalidLength),
    {
        if hash.len() != HASH_LEN {
            return Err(Error::InvalidLength);
        }
        Ok(Credential::ScriptHash(slice_to_vec(hash)))
    }

    pub fn is_script(&self) -> (r: bool)
        ensures
            r == self@.is_script(),
    {
        match self {
            Credential::KeyHash(_) => false,
            Credential::ScriptHash(_) => true,
        }
    }

    pub fn hash_bytes(&self) -> (r: &Vec<u8>)
        ensures
            r@ == self@.hash(),
    {
        match self {
            Credential::KeyHash(h) => h,
            Credential::ScriptHash(h) => h,
        }
    }
}

} // verus!
