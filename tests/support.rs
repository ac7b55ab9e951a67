use std::sync::mpsc::{channel, TryRecvError};

use melissa_client::blob::{Blob, Verdict};
use melissa_client::engine::{bytes_equal, find_member_slot, Credential};
use melissa_client::error::Error;
use melissa_client::outbox::Outbox;
use melissa_client::polling::Polling;
use melissa_client::repl::{starts_with, str_equal, REPLDictionary, REPLReturnType};
use melissa_client::session::State;
use melissa_client::settings::Settings;
use melissa_client::state::{process_message, GroupState};
use melissa_client::registry::GroupRegistry;

#[test]
fn blobs_url_is_built_from_server_and_group() {
    let settings = Settings { server: "http://localhost:8080".to_string() };
    assert_eq!(settings.blobs_url("g1"), "http://localhost:8080/groups/g1/blobs");
}

#[test]
fn polling_start_and_stop() {
    let mut polling = Polling::new();
    assert!(!polling.is_polling());
    let (sender, receiver) = channel::<()>();
    polling.start_polling(sender);
    assert!(polling.is_polling());
    assert_eq!(receiver.try_recv(), Err(TryRecvError::Empty));
    let (sender2, receiver2) = channel::<()>();
    polling.start_polling(sender2);
    assert_eq!(receiver.try_recv(), Err(TryRecvError::Disconnected));
    assert!(polling.is_polling());
    polling.stop_polling();
    assert!(!polling.is_polling());
    assert_eq!(receiver2.try_recv(), Err(TryRecvError::Disconnected));
    polling.stop_polling();
    assert!(!polling.is_polling());
}

#[test]
fn observer_process_message_verdicts() {
    let mut state: GroupState<NoEngine> = GroupState::Observer { next_index: 2 };
    let b = |index: u64| Blob { index, content: () };
    assert_eq!(process_message(&mut state, &b(1)), Verdict::Stale);
    assert_eq!(process_message(&mut state, &b(3)), Verdict::Future);
    assert_eq!(state.next_index(), 2);
    assert_eq!(process_message(&mut state, &b(2)), Verdict::Applied);
    assert_eq!(state.next_index(), 3);
    assert_eq!(process_message(&mut state, &b(2)), Verdict::Stale);
    assert_eq!(state.next_index(), 3);
}

struct NoEngine;

impl melissa_client::engine::GroupCryptoEngine for NoEngine {
    type Operation = ();
    type Handshake = ();
    type KeyPackage = ();
    fn create_add(&mut self, _: &()) -> (Vec<u8>, ()) {
        panic!("no engine")
    }
    fn create_remove(&mut self, _: usize) {
        panic!("no engine")
    }
    fn create_update(&mut self) {
        panic!("no engine")
    }
    fn create_handshake(&mut self, _: ()) {
        panic!("no engine")
    }
    fn process_handshake(&mut self, _: &()) {
        panic!("no engine")
    }
    fn get_members(&self) -> Vec<Credential> {
        panic!("no engine")
    }
}

#[test]
fn observer_registry_never_calls_engine() {
    let mut reg: GroupRegistry<NoEngine> = GroupRegistry::new();
    reg.subscribe("g1").unwrap();
    let blobs: Vec<Blob<()>> = (0..4u64).map(|i| Blob { index: i, content: () }).collect();
    let verdicts = reg.sync_group("g1", &blobs).unwrap();
    assert_eq!(verdicts.len(), 4);
    assert!(verdicts.iter().all(|v| *v == Verdict::Applied));
    assert_eq!(reg.get("g1").unwrap().next_index(), 4);
}

#[test]
fn member_slot_is_first_with_key() {
    let members = vec![
        Credential { identity: b"a".to_vec(), public_key: vec![1, 1] },
        Credential { identity: b"b".to_vec(), public_key: vec![2, 2] },
        Credential { identity: b"c".to_vec(), public_key: vec![2, 2] },
    ];
    assert_eq!(find_member_slot(&members, &vec![2, 2]), Some(1));
    assert_eq!(find_member_slot(&members, &vec![1, 1]), Some(0));
    assert_eq!(find_member_slot(&members, &vec![2]), None);
    assert_eq!(find_member_slot(&vec![], &vec![2]), None);
}

#[test]
fn byte_and_string_equality() {
    assert!(bytes_equal(&vec![1, 2, 3], &vec![1, 2, 3]));
    assert!(!bytes_equal(&vec![1, 2, 3], &vec![1, 2, 4]));
    assert!(!bytes_equal(&vec![1, 2], &vec![1, 2, 3]));
    assert!(str_equal("recv", "recv"));
    assert!(!str_equal("recv", "recv_from"));
    assert!(starts_with("recv_from(\"g\", 3)", "recv"));
    assert!(!starts_with("rec", "recv"));
    assert!(starts_with("", ""));
}

#[test]
fn dictionary_finds_registered_prefix() {
    let mut dict = REPLDictionary::new();
    assert_eq!(dict.get_starts_with(&"list()".to_string()), None);
    dict.add("list", &REPLReturnType::StringsResult);
    dict.add("create", &REPLReturnType::UnitResult);
    assert_eq!(dict.get_starts_with(&"list()".to_string()), Some(REPLReturnType::StringsResult));
    assert_eq!(dict.get_starts_with(&"create(\"g1\")".to_string()), Some(REPLReturnType::UnitResult));
    assert_eq!(dict.get_starts_with(&"update(\"g1\")".to_string()), None);
    dict.add("list", &REPLReturnType::Strings);
    assert_eq!(dict.get_starts_with(&"list()".to_string()), Some(REPLReturnType::Strings));
    assert_eq!(dict.describe().len(), 2);
}

#[test]
fn dictionary_lines() {
    let mut dict = REPLDictionary::new();
    dict.add("is_polling", &REPLReturnType::Boolean);
    dict.add("recv", &REPLReturnType::BlobsResult);
    assert_eq!(
        dict.describe(),
        vec!["is_polling\t: \t: Boolean".to_string(), "recv\t: \t: BlobsResult".to_string()]
    );
    assert_eq!(REPLReturnType::default(), REPLReturnType::Unit);
    assert_eq!(REPLReturnType::StringsResult.name(), "StringsResult");
}

#[test]
fn error_messages() {
    assert_eq!(Error::NotFound.message(), "Group doesn't exist!");
    assert_eq!(Error::AlreadyExists.message(), "Group already exists!");
    assert_eq!(Error::UserNotFound.message(), "User not found!");
}

#[test]
fn new_session_binds_name_to_key() {
    let state: State<u32, NoEngine> = State::new("alice", 7, vec![9, 9]);
    assert_eq!(state.name, "alice");
    assert_eq!(state.keys, 7);
    assert_eq!(state.credential.identity, b"alice".to_vec());
    assert_eq!(state.credential.public_key, vec![9, 9]);
    assert!(state.groups.list().is_empty());
}

#[test]
fn outbox_keeps_refused_blobs_unchanged() {
    let mut outbox: Outbox<Vec<u8>> = Outbox::new();
    assert_eq!(outbox.len(), 0);
    outbox.push("g1".to_string(), Blob { index: 2, content: vec![7, 7] });
    outbox.push("g2".to_string(), Blob { index: 0, content: vec![1] });
    outbox.push("g1".to_string(), Blob { index: 3, content: vec![8] });
    let attempted = outbox.take();
    assert_eq!(outbox.len(), 0);
    assert_eq!(attempted.len(), 3);
    outbox.requeue(attempted, &vec![false, true, false]);
    let again = outbox.take();
    assert_eq!(again.len(), 2);
    assert_eq!(again[0].0, "g1");
    assert_eq!(again[0].1.index, 2);
    assert_eq!(again[0].1.content, vec![7, 7]);
    assert_eq!(again[1].1.index, 3);
    outbox.requeue(again, &vec![true, true]);
    assert_eq!(outbox.len(), 0);
}
