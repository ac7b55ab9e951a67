use melissa_client::blob::{Blob, Verdict};
use melissa_client::engine::{Credential, GroupCryptoEngine};
use melissa_client::error::Error;
use melissa_client::registry::{GroupRecord, GroupRegistry};
use melissa_client::state::GroupState;

/// An engine that records the handshakes it processes and keeps a roster.
#[derive(Clone, Debug, PartialEq)]
struct MockEngine {
    processed: Vec<Vec<u8>>,
    members: Vec<Credential>,
}

fn cred(name: &str, key: u8) -> Credential {
    Credential { identity: name.as_bytes().to_vec(), public_key: vec![key; 4] }
}

impl MockEngine {
    fn new(owner: &str) -> MockEngine {
        MockEngine { processed: Vec::new(), members: vec![cred(owner, 1)] }
    }
}

impl GroupCryptoEngine for MockEngine {
    type Operation = Vec<u8>;
    type Handshake = Vec<u8>;
    type KeyPackage = Credential;

    fn create_add(&mut self, key_package: &Credential) -> (Vec<u8>, Vec<u8>) {
        let mut op = b"add:".to_vec();
        op.push(key_package.public_key[0]);
        op.extend_from_slice(&key_package.identity);
        (b"welcome".to_vec(), op)
    }

    fn create_remove(&mut self, slot: usize) -> Vec<u8> {
        vec![b'r', b'm', slot as u8]
    }

    fn create_update(&mut self) -> Vec<u8> {
        b"update".to_vec()
    }

    fn create_handshake(&mut self, operation: Vec<u8>) -> Vec<u8> {
        operation
    }

    fn process_handshake(&mut self, handshake: &Vec<u8>) {
        if handshake.starts_with(b"add:") {
            let key = handshake[4];
            let name = String::from_utf8(handshake[5..].to_vec()).unwrap();
            self.members.push(cred(&name, key));
        } else if handshake.starts_with(b"rm") {
            self.members.remove(handshake[2] as usize);
        }
        self.processed.push(handshake.clone());
    }

    fn get_members(&self) -> Vec<Credential> {
        self.members.clone()
    }
}

fn blob(index: u64, content: &[u8]) -> Blob<Vec<u8>> {
    Blob { index, content: content.to_vec() }
}

fn next_index(reg: &GroupRegistry<MockEngine>, id: &str) -> u64 {
    reg.get(id).unwrap().next_index()
}

fn engine<'a>(reg: &'a GroupRegistry<MockEngine>, id: &str) -> &'a MockEngine {
    match reg.get(id).unwrap() {
        GroupState::Member { crypto, .. } => crypto,
        GroupState::Observer { .. } => panic!("not a member"),
    }
}

#[test]
fn create_update_then_echo_is_noop() {
    let mut reg = GroupRegistry::new();
    assert_eq!(reg.create("g1", MockEngine::new("alice")), Ok(()));
    assert_eq!(next_index(&reg, "g1"), 0);
    let published = reg.update("g1").unwrap();
    assert_eq!(published.index, 0);
    assert_eq!(next_index(&reg, "g1"), 1);
    let before = engine(&reg, "g1").clone();
    let verdicts = reg.sync_group("g1", &vec![published.clone()]).unwrap();
    assert_eq!(verdicts, vec![Verdict::Stale]);
    assert_eq!(next_index(&reg, "g1"), 1);
    assert_eq!(engine(&reg, "g1"), &before);
}

#[test]
fn subscribed_group_advances_without_engine() {
    let mut reg: GroupRegistry<MockEngine> = GroupRegistry::new();
    assert_eq!(reg.subscribe("g1"), Ok(()));
    assert_eq!(next_index(&reg, "g1"), 0);
        let blobs = vec![blob(0, b"a"), blob(1, b"b"), blob(2, b"update")];
    let verdicts = reg.sync_group("g1", &blobs).unwrap();
    assert_eq!(verdicts, vec![Verdict::Applied, Verdict::Applied, Verdict::Applied]);
    assert_eq!(next_index(&reg, "g1"), 3);
    assert!(!reg.get("g1").unwrap().is_member_entry());
    assert!(!reg.get("g1").unwrap().should_update());
}

#[test]
fn publish_failure_retry_keeps_local_state() {
    let mut reg = GroupRegistry::new();
    reg.create("g1", MockEngine::new("alice")).unwrap();
    reg.update("g1").unwrap();
    reg.update("g1").unwrap();
    assert_eq!(next_index(&reg, "g1"), 2);
    let (pending, welcome) = reg.add("g1", &cred("bob", 2)).unwrap();
    assert_eq!(welcome, b"welcome".to_vec());
    assert_eq!(pending.index, 2);
    assert_eq!(next_index(&reg, "g1"), 3);
    let after_add = engine(&reg, "g1").clone();
    assert_eq!(after_add.processed.len(), 3);
    // The append failed; the caller keeps the blob and sends it again. The
    // retry sends the identical blob, and the local state is not touched again.
    let retried = pending.clone();
    assert_eq!(retried.index, pending.index);
    assert_eq!(retried.content, pending.content);
    assert_eq!(next_index(&reg, "g1"), 3);
    // Once the retry went through, the poller sees the blob come back: no-op.
    let verdicts = reg.sync_group("g1", &vec![blob(0, b"update"), blob(1, b"update"), retried]).unwrap();
    assert_eq!(verdicts, vec![Verdict::Stale, Verdict::Stale, Verdict::Stale]);
    assert_eq!(next_index(&reg, "g1"), 3);
    assert_eq!(engine(&reg, "g1"), &after_add);
}

#[test]
fn join_starts_at_transcript_length() {
    let mut reg = GroupRegistry::new();
    assert_eq!(reg.join("g1", MockEngine::new("bob"), 5), Ok(()));
    assert_eq!(next_index(&reg, "g1"), 5);
    assert!(reg.get("g1").unwrap().should_update());
    let b = reg.update("g1").unwrap();
    assert_eq!(b.index, 5);
    assert_eq!(next_index(&reg, "g1"), 6);
    assert!(!reg.get("g1").unwrap().should_update());
}

#[test]
fn join_twice_is_refused() {
    let mut reg = GroupRegistry::new();
    reg.join("g1", MockEngine::new("bob"), 3).unwrap();
    assert_eq!(reg.join("g1", MockEngine::new("bob"), 9), Err(Error::AlreadyExists));
    assert_eq!(next_index(&reg, "g1"), 3);
}

#[test]
fn future_blob_changes_nothing() {
    let mut reg = GroupRegistry::new();
    reg.create("g1", MockEngine::new("alice")).unwrap();
    let verdicts = reg.sync_group("g1", &vec![blob(2, b"update")]).unwrap();
    assert_eq!(verdicts, vec![Verdict::Future]);
    assert_eq!(next_index(&reg, "g1"), 0);
    assert!(engine(&reg, "g1").processed.is_empty());
}

#[test]
fn cursor_counts_accepted_blobs() {
    let mut reg = GroupRegistry::new();
    reg.create("g1", MockEngine::new("alice")).unwrap();
    let blobs = vec![blob(0, b"a"), blob(1, b"b"), blob(1, b"c"), blob(3, b"d"), blob(2, b"e")];
    let verdicts = reg.sync_group("g1", &blobs).unwrap();
    assert_eq!(
        verdicts,
        vec![Verdict::Applied, Verdict::Applied, Verdict::Stale, Verdict::Future, Verdict::Applied]
    );
    assert_eq!(next_index(&reg, "g1"), 3);
    assert_eq!(engine(&reg, "g1").processed, vec![b"a".to_vec(), b"b".to_vec(), b"e".to_vec()]);
    // The gap at 3 is closed by a later fetch.
    let verdicts = reg.sync_group("g1", &vec![blob(3, b"d")]).unwrap();
    assert_eq!(verdicts, vec![Verdict::Applied]);
    assert_eq!(next_index(&reg, "g1"), 4);
}

#[test]
fn snapshot_round_trip() {
    let mut reg = GroupRegistry::new();
    reg.create("g1", MockEngine::new("alice")).unwrap();
    reg.add("g1", &cred("bob", 2)).unwrap();
    reg.subscribe("g2").unwrap();
    reg.sync_group("g2", &vec![blob(0, b"x")]).unwrap();
    reg.join("g3", MockEngine::new("alice"), 4).unwrap();
    let expected: Vec<(String, u64, bool, bool)> = ["g1", "g2", "g3"]
        .iter()
        .map(|id| {
            let g = reg.get(id).unwrap();
            (id.to_string(), g.next_index(), g.is_member_entry(), g.should_update())
        })
        .collect();
    let roster = reg.roster("g1").unwrap().clone();
    let engine_g1 = engine(&reg, "g1").clone();

    let records = reg.into_records();
    assert_eq!(records.len(), 3);
    let g2 = records.iter().find(|r| r.group_id == "g2").unwrap();
    assert!(g2.crypto.is_none());
    assert_eq!(g2.next_index, 1);
    let g1 = records.iter().find(|r| r.group_id == "g1").unwrap();
    assert_eq!(g1.roster, roster);

    let restored = GroupRegistry::from_records(records).unwrap();
    let mut keys = restored.list();
    keys.sort();
    assert_eq!(keys, vec!["g1".to_string(), "g2".to_string(), "g3".to_string()]);
    for (id, next, member, owes) in expected {
        let g = restored.get(&id).unwrap();
        assert_eq!(g.next_index(), next);
        assert_eq!(g.is_member_entry(), member);
        assert_eq!(g.should_update(), owes);
    }
    assert_eq!(*restored.roster("g1").unwrap(), roster);
    assert_eq!(roster.len(), 2);
    assert_eq!(engine(&restored, "g1"), &engine_g1);
    assert_eq!(restored.roster("g2").err(), Some(Error::NotAMember));
}

fn record(id: &str, next_index: u64, crypto: Option<MockEngine>, should_update: bool) -> GroupRecord<MockEngine> {
    GroupRecord { group_id: id.to_string(), next_index, crypto, should_update, roster: vec![] }
}

#[test]
fn snapshot_with_duplicate_group_is_malformed() {
    let records = vec![record("g1", 0, None, false), record("g1", 2, Some(MockEngine::new("a")), false)];
    assert_eq!(GroupRegistry::from_records(records).err(), Some(Error::DecodeFailure));
}

#[test]
fn snapshot_with_observer_owing_update_is_malformed() {
    let records = vec![record("g1", 0, None, true)];
    assert_eq!(GroupRegistry::from_records(records).err(), Some(Error::DecodeFailure));
    let records = vec![record("g1", 5, None, false), record("g2", 1, Some(MockEngine::new("a")), true)];
    let reg = GroupRegistry::from_records(records).unwrap();
    assert_eq!(next_index(&reg, "g1"), 5);
    assert!(reg.get("g2").unwrap().should_update());
}

#[test]
fn create_existing_group_is_refused() {
    let mut reg = GroupRegistry::new();
    reg.create("g1", MockEngine::new("alice")).unwrap();
    reg.update("g1").unwrap();
    assert_eq!(reg.create("g1", MockEngine::new("alice")), Err(Error::AlreadyExists));
    assert_eq!(reg.subscribe("g1"), Err(Error::AlreadyExists));
    assert_eq!(next_index(&reg, "g1"), 1);
}

#[test]
fn subscribe_twice_is_refused() {
    let mut reg: GroupRegistry<MockEngine> = GroupRegistry::new();
    reg.subscribe("g1").unwrap();
    assert_eq!(reg.subscribe("g1"), Err(Error::AlreadyExists));
    assert_eq!(reg.create("g1", MockEngine::new("alice")), Err(Error::AlreadyExists));
    assert!(!reg.get("g1").unwrap().is_member_entry());
}

#[test]
fn missing_group_is_not_found() {
    let mut reg: GroupRegistry<MockEngine> = GroupRegistry::new();
    assert_eq!(reg.update("g1").err(), Some(Error::NotFound));
    assert_eq!(reg.add("g1", &cred("bob", 2)).err(), Some(Error::NotFound));
    assert_eq!(reg.remove("g1", &cred("bob", 2)).err(), Some(Error::NotFound));
    assert_eq!(reg.sync_group("g1", &vec![]).err(), Some(Error::NotFound));
    assert_eq!(reg.roster("g1").err(), Some(Error::NotFound));
    assert!(reg.get("g1").is_err());
    assert!(!reg.contains("g1"));
}

#[test]
fn observer_cannot_issue_operations() {
    let mut reg: GroupRegistry<MockEngine> = GroupRegistry::new();
    reg.subscribe("g1").unwrap();
    assert_eq!(reg.update("g1").err(), Some(Error::NotAMember));
    assert_eq!(reg.add("g1", &cred("bob", 2)).err(), Some(Error::NotAMember));
    assert_eq!(reg.remove("g1", &cred("bob", 2)).err(), Some(Error::NotAMember));
    assert_eq!(next_index(&reg, "g1"), 0);
}

#[test]
fn remove_finds_member_by_key() {
    let mut reg = GroupRegistry::new();
    reg.create("g1", MockEngine::new("alice")).unwrap();
    reg.add("g1", &cred("bob", 2)).unwrap();
    reg.add("g1", &cred("carol", 3)).unwrap();
    // The name does not matter, only the key.
    let b = reg.remove("g1", &cred("someone", 2)).unwrap();
    assert_eq!(b.index, 2);
    assert_eq!(b.content, vec![b'r', b'm', 1]);
    assert_eq!(next_index(&reg, "g1"), 3);
    let roster = reg.roster("g1").unwrap();
    assert_eq!(*roster, vec![cred("alice", 1), cred("carol", 3)]);
}

#[test]
fn remove_unknown_user_changes_nothing() {
    let mut reg = GroupRegistry::new();
    reg.create("g1", MockEngine::new("alice")).unwrap();
    assert_eq!(reg.remove("g1", &cred("bob", 9)).err(), Some(Error::UserNotFound));
    assert_eq!(next_index(&reg, "g1"), 0);
    assert!(engine(&reg, "g1").processed.is_empty());
}

#[test]
fn same_blob_offered_twice_counts_once() {
    let mut reg = GroupRegistry::new();
    reg.create("g1", MockEngine::new("alice")).unwrap();
    let b = vec![blob(0, b"x")];
    assert_eq!(reg.sync_group("g1", &b).unwrap(), vec![Verdict::Applied]);
    let once = engine(&reg, "g1").clone();
    assert_eq!(reg.sync_group("g1", &b).unwrap(), vec![Verdict::Stale]);
    assert_eq!(next_index(&reg, "g1"), 1);
    assert_eq!(engine(&reg, "g1"), &once);
}

#[test]
fn add_publishes_the_handshake_it_applied() {
    let mut reg = GroupRegistry::new();
    reg.create("g1", MockEngine::new("alice")).unwrap();
    let (b, welcome) = reg.add("g1", &cred("bob", 2)).unwrap();
    assert_eq!(welcome, b"welcome".to_vec());
    assert_eq!(b.index, 0);
    assert_eq!(b.content, engine(&reg, "g1").processed[0]);
    assert_eq!(*reg.roster("g1").unwrap(), vec![cred("alice", 1), cred("bob", 2)]);
    assert!(!reg.get("g1").unwrap().should_update());
}

#[test]
fn full_log_refuses_local_operations() {
    let mut reg = GroupRegistry::new();
    reg.join("g1", MockEngine::new("bob"), u64::MAX).unwrap();
    assert_eq!(reg.update("g1").err(), Some(Error::LogFull));
    let verdicts = reg.sync_group("g1", &vec![blob(u64::MAX, b"x")]).unwrap();
    assert_eq!(verdicts, vec![Verdict::Future]);
    assert_eq!(next_index(&reg, "g1"), u64::MAX);
}

#[test]
fn list_names_each_group_once() {
    let mut reg = GroupRegistry::new();
    reg.create("g1", MockEngine::new("alice")).unwrap();
    reg.subscribe("g2").unwrap();
    assert!(reg.subscribe("g1").is_err());
    assert_eq!(reg.list(), vec!["g1".to_string(), "g2".to_string()]);
    assert!(reg.contains("g2"));
}
