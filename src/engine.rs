use vstd::prelude::*;
use vstd::string::StringSliceAdditionalSpecFns;

verus! {

/// The public identity of a user: a human-readable name bound to the public
/// key of the user's long-lived identity keypair.
#[derive(Clone, Debug)]
pub struct Credential {
    pub identity: Vec<u8>,
    pub public_key: Vec<u8>,
}

impl Credential {
    /// The credential of the user called `name` whose identity key is `public_key`.
    pub fn for_user(name: &str, public_key: Vec<u8>) -> (r: Credential)
        ensures
            r.identity@ == name.spec_bytes(),
            r.public_key@ == public_key@,
    {
        Credential { identity: name.as_bytes_vec(), public_key }
    }
}

impl PartialEq for Credential {
    fn eq(&self, other: &Credential) -> (r: bool) {
        bytes_equal(&self.identity, &other.identity) && bytes_equal(&self.public_key, &other.public_key)
    }
}

impl vstd::std_specs::cmp::PartialEqSpecImpl for Credential {
    open spec fn obeys_eq_spec() -> bool {
        true
    }

    open spec fn eq_spec(&self, other: &Credential) -> bool {
        self.identity@ == other.identity@ && self.public_key@ == other.public_key@
    }
}

/// The group key-agreement engine of one group, as the session manager uses it.
///
/// An engine value holds the cryptographic state of one group for the local
/// member. Reading handshake messages from the blob store's bytes, and writing
/// them, happens where the store is talked to.
pub trait GroupCryptoEngine: Sized {
    /// A membership operation before it is wrapped into a handshake message.
    type Operation;

    /// A handshake message, ready to be published or processed.
    type Handshake;

    /// What adding a user takes: their public credential and one-time prekey,
    /// as read from their key files.
    type KeyPackage;

    /// An operation adding the user of `key_package`, together with the encoded
    /// welcome package for them.
    fn create_add(&mut self, key_package: &Self::KeyPackage) -> (Vec<u8>, Self::Operation);

    /// An operation removing the member in position `slot` of the roster.
    fn create_remove(&mut self, slot: usize) -> Self::Operation;

    /// An operation renewing the local member's own key material.
    fn create_update(&mut self) -> Self::Operation;

    /// The handshake message that carries `operation`.
    fn create_handshake(&mut self, operation: Self::Operation) -> Self::Handshake;

    /// Advances the group's cryptographic state by one handshake message.
    fn process_handshake(&mut self, handshake: &Self::Handshake);

    /// The group's roster, one credential per membership slot.
    fn get_members(&self) -> Vec<Credential>;
}

/// Whether two byte strings are equal.
pub fn bytes_equal(a: &Vec<u8>, b: &Vec<u8>) -> (r: bool)
    ensures
        r == (a@ == b@),
{
    if a.len() != b.len() {
        return false;
    }
    let mut i: usize = 0;
    while i < a.len()
        invariant
            a@.len() == b@.len(),
            i <= a@.len(),
            forall|j: int| 0 <= j < i ==> a@[j] == b@[j],
        decreases a@.len() - i,
    {
        if a[i] != b[i] {
            return false;
        }
        i = i + 1;
    }
    assert(a@ =~= b@);
    true
}

/// The first slot of `members` whose credential carries `public_key`.
pub open spec fn slot_of(members: Seq<Credential>, public_key: Seq<u8>) -> Option<int> {
    if exists|i: int| 0 <= i < members.len() && members[i].public_key@ == public_key {
        Some(
            choose|i: int|
                0 <= i < members.len() && members[i].public_key@ == public_key && forall|
                    j: int,
                | 0 <= j < i ==> members[j].public_key@ != public_key,
        )
    } else {
        None
    }
}

/// Finds a member by public key: usernames are not part of the protocol's wire
/// data, so the roster is scanned for the key.
pub fn find_member_slot(members: &Vec<Credential>, public_key: &Vec<u8>) -> (r: Option<usize>)
    ensures
        match r {
            Some(i) => {
                &&& i < members@.len()
                &&& members@[i as int].public_key@ == public_key@
                &&& forall|j: int| 0 <= j < i ==> members@[j].public_key@ != public_key@
            },
            None => forall|j: int|
                0 <= j < members@.len() ==> members@[j].public_key@ != public_key@,
        },
        r matches Some(i) ==> slot_of(members@, public_key@) == Some(i as int),
        r is None ==> slot_of(members@, public_key@) is None,
{
    let mut i: usize = 0;
    while i < members.len()
        invariant
            i <= members@.len(),
            forall|j: int| 0 <= j < i ==> members@[j].public_key@ != public_key@,
        decreases members@.len() - i,
    {
        if bytes_equal(&members[i].public_key, public_key) {
            let ghost k = i as int;
            assert(exists|x: int| 0 <= x < members@.len() && members@[x].public_key@ == public_key@)
                by { assert(0 <= k < members@.len()); }
            let ghost c = slot_of(members@, public_key@)->0;
            assert(c == k) by {
                if c < k {
                } else if c > k {
                }
            }
            return Some(i);
        }
        i = i + 1;
    }
    None
}

} // verus!
