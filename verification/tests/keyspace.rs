//! Key layout: no record of one kind can be taken for one of another.
use dal::error::Error;
use dal::keyspace::{
    admission_key, bootstrap_key, decode_search_consumer_key, heartbeat_incarnation_key,
    identity_key, last_applied_key, meta_cluster_key, meta_node_key, meta_node_prefix,
    meta_placement_key, meta_search_index_key, meta_search_index_prefix, meta_search_ready_key,
    meta_search_ready_prefix, pending_report_key, raft_applied_key, registration_binding_key,
    search_consumer_key, search_consumer_prefix, search_epoch_key, search_outbox_epoch_prefix,
    search_outbox_prefix, search_prefix, search_session_incarnation_key, seq_key, serving_key,
    starts_with, state_cf_generation_key, state_cf_pointer_key, state_cf_pointer_prefix, user_key,
    TAG_INTERNAL, TAG_META, TAG_SEQ, TAG_USER,
};
use dal::types::GroupId;

#[test]
fn user_keys_never_collide_with_internal() {
    // A user key, however crafted, is tagged 0x01 and so can never equal
    // the internal last_applied key (tagged 0x00).
    assert_ne!(user_key(b"L"), last_applied_key());
    assert_ne!(user_key(&[]), last_applied_key());
    assert_ne!(user_key(&[TAG_INTERNAL, b'L']), last_applied_key());
}

#[test]
fn tags_are_distinct() {
    let tags = [TAG_INTERNAL, TAG_USER, TAG_SEQ, TAG_META];
    let set: std::collections::BTreeSet<_> = tags.iter().collect();
    assert_eq!(set.len(), tags.len());
}

#[test]
fn user_and_sequence_keys_are_tagged() {
    assert_eq!(user_key(b"abc"), vec![TAG_USER, b'a', b'b', b'c']);
    let mut want = vec![TAG_SEQ];
    want.extend_from_slice(&7u128.to_be_bytes());
    assert_eq!(seq_key(7), want);
}

#[test]
fn node_keys_share_the_node_prefix() {
    let key = meta_node_key(0x0102);
    assert!(starts_with(&key, &meta_node_prefix()));
    assert_eq!(&key[2..], &0x0102u64.to_be_bytes());
    assert!(!starts_with(&meta_cluster_key(), &meta_node_prefix()));
}

#[test]
fn search_index_keys_share_their_prefix() {
    let key = meta_search_index_key("names");
    assert!(starts_with(&key, &meta_search_index_prefix()));
    let ready = meta_search_ready_key("names", 4, GroupId::Data(2), 9);
    assert!(starts_with(&ready, &meta_search_ready_prefix("names", 4)));
    assert!(!starts_with(&ready, &meta_search_ready_prefix("names", 5)));
}

#[test]
fn consumer_keys_are_read_back() {
    let group = GroupId::Data(3);
    let key = search_consumer_key(group, "titles", 12);
    assert!(starts_with(&key, &search_consumer_prefix(group)));
    assert_eq!(
        decode_search_consumer_key(group, &key),
        Ok(("titles".to_string(), 12))
    );
}

#[test]
fn consumer_keys_of_another_group_are_corrupt() {
    let key = search_consumer_key(GroupId::Data(3), "titles", 12);
    assert!(matches!(
        decode_search_consumer_key(GroupId::Data(4), &key),
        Err(Error::Corrupt(_, _))
    ));
    assert!(matches!(
        decode_search_consumer_key(GroupId::Data(3), &key[..key.len() - 1]),
        Err(Error::Corrupt(_, _))
    ));
}

#[test]
fn consumer_keys_with_bad_text_are_corrupt() {
    let group = GroupId::Data(3);
    let mut key = search_consumer_key(group, "titles", 12);
    let at = search_consumer_prefix(group).len() + 2;
    key[at] = 0xff;
    assert!(matches!(
        decode_search_consumer_key(group, &key),
        Err(Error::Corrupt(_, _))
    ));
}

#[test]
fn local_records_have_keys_of_their_own() {
    let group = GroupId::Data(1);
    let keys = [
        identity_key(),
        heartbeat_incarnation_key(),
        search_session_incarnation_key(),
        registration_binding_key(),
        serving_key(group),
        admission_key(group),
        pending_report_key(group),
        bootstrap_key(group),
        state_cf_pointer_key(group),
        state_cf_generation_key(group),
        search_prefix(group),
        search_epoch_key(group),
        search_outbox_prefix(group),
        search_outbox_epoch_prefix(group, 1),
        search_consumer_prefix(group),
    ];
    for (i, a) in keys.iter().enumerate() {
        for b in keys.iter().skip(i + 1) {
            assert_ne!(a, b);
        }
    }
    assert!(starts_with(&state_cf_pointer_key(group), state_cf_pointer_prefix()));
    assert_ne!(last_applied_key(), raft_applied_key());
    assert_ne!(meta_placement_key(GroupId::Meta), meta_placement_key(group));
}
