use vstd::prelude::*;
use vstd::string::StringSliceAdditionalSpecFns;

use crate::engine::Credential;
use crate::registry::GroupRegistry;
use crate::state::GroupState;

verus! {

/// Everything a session tracks: the user's name, the key material of the user's
/// identity (`keys`: the identity keypair and the published init-key bundle,
/// kept by the engine's side), the credential others use to add the user, and
/// the groups.
#[derive(Debug)]
pub struct State<K, E> {
    pub name: String,
    pub keys: K,
    pub credential: Credential,
    pub groups: GroupRegistry<E>,
}

impl<K, E> State<K, E> {
    /// A fresh session for the user `name`, whose identity key material is `keys`
    /// with public identity key `public_key`. The user is in no group yet.
    pub fn new(name: &str, keys: K, public_key: Vec<u8>) -> (r: Self)
        ensures
            r.name@ == name@,
            r.keys == keys,
            r.credential.identity@ == name.spec_bytes(),
            r.credential.public_key@ == public_key@,
            r.groups.wf(),
            r.groups@ == Map::<Seq<char>, GroupState<E>>::empty(),
    {
        State {
            name: name.to_owned(),
            keys,
            credential: Credential::for_user(name, public_key),
            groups: GroupRegistry::new(),
        }
    }
}

} // verus!
