//! Keys of the records in a group's state and of the node-local records.
//!
//! User keys are opaque bytes, so internal records live in a namespace users can
//! never address: every state key carries a one-byte tag, and user records alone
//! carry [`TAG_USER`]. Names inside keys are preceded by their length, so a name
//! that holds a delimiter cannot be taken for a longer one.
use crate::bytes::{
    be_bytes, be_value, lemma_be_bytes_len, lemma_be_injective, lemma_be_round_trip,
    lemma_capacities, push_be, read_be,
};
use crate::error::{Error, ErrorView};
use crate::text::{decimal, lemma_radix_text_ascii, lemma_radix_text_injective, lemma_radix_text_value};
use crate::types::{GroupId, NodeId};
use vstd::prelude::*;
use vstd::string::StringSliceAdditionalSpecFns;
use vstd::utf8::{decode_utf8, encode_utf8, valid_utf8};

verus! {

/// Tag of the state machine's own singletons.
pub const TAG_INTERNAL: u8 = 0x00;

/// Tag of user records.
pub const TAG_USER: u8 = 0x01;

/// Tag of per-client sequence records.
pub const TAG_SEQ: u8 = 0x02;

/// Tag of meta-group records.
pub const TAG_META: u8 = 0x03;

/// The bytes of a text.
pub open spec fn utf8(text: Seq<char>) -> Seq<u8> {
    encode_utf8(text)
}

/// A name preceded by its length in bytes.
pub open spec fn framed_name(name: Seq<char>) -> Seq<u8> {
    be_bytes(utf8(name).len(), 4) + utf8(name)
}

/// Whether a name's length fits the frame.
pub open spec fn fits_frame(name: Seq<char>) -> bool {
    utf8(name).len() <= u32::MAX
}

pub open spec fn last_applied_bytes() -> Seq<u8> {
    seq![TAG_INTERNAL, 0x4c]
}

pub open spec fn raft_applied_bytes() -> Seq<u8> {
    seq![TAG_INTERNAL, 0x52]
}

pub open spec fn user_bytes(key: Seq<u8>) -> Seq<u8> {
    seq![TAG_USER] + key
}

pub open spec fn seq_bytes(client_id: u128) -> Seq<u8> {
    seq![TAG_SEQ] + be_bytes(client_id as nat, 16)
}

pub open spec fn meta_cluster_bytes() -> Seq<u8> {
    seq![TAG_META, 0x43]
}

pub open spec fn meta_node_bytes(node_id: NodeId) -> Seq<u8> {
    seq![TAG_META, 0x4e] + be_bytes(node_id as nat, 8)
}

pub open spec fn meta_placement_bytes(group: GroupId) -> Seq<u8> {
    seq![TAG_META, 0x50] + utf8(group.spec_token())
}

pub open spec fn meta_search_index_bytes(name: Seq<char>) -> Seq<u8> {
    seq![TAG_META, 0x53] + framed_name(name)
}

pub open spec fn meta_search_ready_prefix_bytes(name: Seq<char>, generation: u64) -> Seq<u8> {
    seq![TAG_META, 0x73] + framed_name(name) + be_bytes(generation as nat, 8)
}

/// A group as three bytes: a tag and the partition.
pub open spec fn group_bytes(group: GroupId) -> Seq<u8> {
    match group {
        GroupId::Data(p) => seq![1u8] + be_bytes(p as nat, 2),
        GroupId::Meta => seq![0u8, 0u8, 0u8],
    }
}

pub open spec fn meta_search_ready_bytes(
    name: Seq<char>,
    generation: u64,
    group: GroupId,
    node_id: NodeId,
) -> Seq<u8> {
    meta_search_ready_prefix_bytes(name, generation) + group_bytes(group) + be_bytes(
        node_id as nat,
        8,
    )
}

/// A node-local record of one group: a directory and the group's token.
pub open spec fn local_group_bytes(directory: Seq<char>, group: GroupId) -> Seq<u8> {
    utf8(directory) + utf8(group.spec_token())
}

pub open spec fn search_prefix_bytes(group: GroupId) -> Seq<u8> {
    local_group_bytes("local/search/"@, group) + utf8("/"@)
}

pub open spec fn search_outbox_prefix_bytes(group: GroupId) -> Seq<u8> {
    search_prefix_bytes(group) + utf8("outbox/"@)
}

pub open spec fn search_consumer_prefix_bytes(group: GroupId) -> Seq<u8> {
    search_prefix_bytes(group) + utf8("consumer/"@)
}

pub open spec fn search_consumer_bytes(
    group: GroupId,
    name: Seq<char>,
    generation: u64,
) -> Seq<u8> {
    search_consumer_prefix_bytes(group) + framed_name(name) + be_bytes(generation as nat, 8)
}

/// The index name and generation that a consumer key of `group` names, or what
/// is wrong with the key. Bytes after the generation are ignored.
pub open spec fn consumer_of(group: GroupId, key: Seq<u8>) -> Result<(Seq<char>, u64), Seq<char>> {
    let prefix = search_consumer_prefix_bytes(group);
    let rest = key.skip(prefix.len() as int);
    let len = be_value(rest.take(4));
    if !prefix.is_prefix_of(key) {
        Err("key has the wrong group prefix"@)
    } else if rest.len() < 4 {
        Err("key is truncated"@)
    } else if rest.len() < 4 + len {
        Err("name runs past the key"@)
    } else if rest.len() < 4 + len + 8 {
        Err("key has no generation"@)
    } else if !valid_utf8(rest.subrange(4, 4 + len as int)) {
        Err("name is not UTF-8"@)
    } else {
        Ok(
            (
                decode_utf8(rest.subrange(4, 4 + len as int)),
                be_value(rest.subrange(4 + len as int, 4 + len as int + 8)) as u64,
            ),
        )
    }
}

fn push_bytes(out: &mut Vec<u8>, bytes: &[u8])
    ensures
        final(out)@ == old(out)@ + bytes@,
{
    let mut i: usize = 0;
    proof {
        assert(old(out)@ + bytes@.take(0) =~= old(out)@);
    }
    while i < bytes.len()
        invariant
            i <= bytes@.len(),
            out@ == old(out)@ + bytes@.take(i as int),
        decreases bytes@.len() - i,
    {
        out.push(bytes[i]);
        proof {
            assert(out@ =~= old(out)@ + bytes@.take(i + 1));
        }
        i += 1;
    }
    proof {
        assert(bytes@.take(i as int) =~= bytes@);
    }
}

fn push_text(out: &mut Vec<u8>, text: &str)
    ensures
        final(out)@ == old(out)@ + utf8(text@),
{
    push_bytes(out, text.as_bytes());
}

fn push_name(out: &mut Vec<u8>, name: &str)
    requires
        fits_frame(name@),
    ensures
        final(out)@ == old(out)@ + framed_name(name@),
{
    push_be(out, name.as_bytes().len() as u128, 4);
    push_text(out, name);
    proof {
        assert(out@ =~= old(out)@ + framed_name(name@));
    }
}

/// The reserved key of a group's last applied position.
pub fn last_applied_key() -> (k: Vec<u8>)
    ensures
        k@ == last_applied_bytes(),
{
    let k = vec![TAG_INTERNAL, 0x4c];
    assert(k@ =~= last_applied_bytes());
    k
}

/// The reserved key of a group's consensus state: the applied position with the
/// last applied membership.
pub fn raft_applied_key() -> (k: Vec<u8>)
    ensures
        k@ == raft_applied_bytes(),
{
    let k = vec![TAG_INTERNAL, 0x52];
    assert(k@ =~= raft_applied_bytes());
    k
}

/// The key of a user record.
pub fn user_key(key: &[u8]) -> (k: Vec<u8>)
    ensures
        k@ == user_bytes(key@),
{
    let mut k: Vec<u8> = Vec::new();
    k.push(TAG_USER);
    push_bytes(&mut k, key);
    assert(k@ =~= user_bytes(key@));
    k
}

/// The key of a client's sequence record.
pub fn seq_key(client_id: u128) -> (k: Vec<u8>)
    ensures
        k@ == seq_bytes(client_id),
{
    let mut k: Vec<u8> = Vec::new();
    k.push(TAG_SEQ);
    push_be(&mut k, client_id, 16);
    assert(k@ =~= seq_bytes(client_id));
    k
}

/// The key of the immutable cluster record.
pub fn meta_cluster_key() -> (k: Vec<u8>)
    ensures
        k@ == meta_cluster_bytes(),
{
    let k = vec![TAG_META, 0x43];
    assert(k@ =~= meta_cluster_bytes());
    k
}

/// The key of one directory entry.
pub fn meta_node_key(node_id: NodeId) -> (k: Vec<u8>)
    ensures
        k@ == meta_node_bytes(node_id),
{
    let mut k: Vec<u8> = Vec::new();
    push_bytes(&mut k, &meta_node_prefix());
    push_be(&mut k, node_id as u128, 8);
    assert(k@ =~= meta_node_bytes(node_id));
    k
}

/// The prefix of every directory entry's key.
pub fn meta_node_prefix() -> (p: [u8; 2])
    ensures
        p@ == seq![TAG_META, 0x4eu8],
{
    let p = [TAG_META, 0x4e];
    assert(p@ =~= seq![TAG_META, 0x4eu8]);
    p
}

/// The key of a group's placement record.
pub fn meta_placement_key(group: GroupId) -> (k: Vec<u8>)
    ensures
        k@ == meta_placement_bytes(group),
{
    let mut k: Vec<u8> = Vec::new();
    k.push(TAG_META);
    k.push(0x50);
    push_text(&mut k, group.token().as_str());
    assert(k@ =~= meta_placement_bytes(group));
    k
}

/// The prefix of every search index's key.
pub fn meta_search_index_prefix() -> (p: [u8; 2])
    ensures
        p@ == seq![TAG_META, 0x53u8],
{
    let p = [TAG_META, 0x53];
    assert(p@ =~= seq![TAG_META, 0x53u8]);
    p
}

/// The key of a search index's record.
pub fn meta_search_index_key(name: &str) -> (k: Vec<u8>)
    requires
        fits_frame(name@),
    ensures
        k@ == meta_search_index_bytes(name@),
{
    let mut k: Vec<u8> = Vec::new();
    push_bytes(&mut k, &meta_search_index_prefix());
    push_name(&mut k, name);
    assert(k@ =~= meta_search_index_bytes(name@));
    k
}

/// The prefix of every readiness claim for one generation of an index.
pub fn meta_search_ready_prefix(name: &str, generation: u64) -> (k: Vec<u8>)
    requires
        fits_frame(name@),
    ensures
        k@ == meta_search_ready_prefix_bytes(name@, generation),
{
    let mut k: Vec<u8> = Vec::new();
    k.push(TAG_META);
    k.push(0x73);
    push_name(&mut k, name);
    push_be(&mut k, generation as u128, 8);
    assert(k@ =~= meta_search_ready_prefix_bytes(name@, generation));
    k
}

/// The key of one replica's readiness claim.
pub fn meta_search_ready_key(
    name: &str,
    generation: u64,
    group: GroupId,
    node_id: NodeId,
) -> (k: Vec<u8>)
    requires
        fits_frame(name@),
    ensures
        k@ == meta_search_ready_bytes(name@, generation, group, node_id),
{
    let mut k = meta_search_ready_prefix(name, generation);
    let ghost head = k@;
    match group {
        GroupId::Data(partition) => {
            k.push(1);
            push_be(&mut k, partition as u128, 2);
        },
        GroupId::Meta => {
            k.push(0);
            k.push(0);
            k.push(0);
        },
    }
    assert(k@ =~= head + group_bytes(group));
    push_be(&mut k, node_id as u128, 8);
    k
}

/// The key of the node identity record.
pub fn identity_key() -> (k: Vec<u8>)
    ensures
        k@ == utf8("local/identity"@),
{
    "local/identity".as_bytes_vec()
}

/// The key of the process epoch of heartbeat sequence numbers.
pub fn heartbeat_incarnation_key() -> (k: Vec<u8>)
    ensures
        k@ == utf8("local/heartbeat_incarnation"@),
{
    "local/heartbeat_incarnation".as_bytes_vec()
}

/// The key of the process epoch of held search sessions.
pub fn search_session_incarnation_key() -> (k: Vec<u8>)
    ensures
        k@ == utf8("local/search_session_incarnation"@),
{
    "local/search_session_incarnation".as_bytes_vec()
}

fn local_group_key(directory: &str, group: GroupId) -> (k: Vec<u8>)
    ensures
        k@ == local_group_bytes(directory@, group),
{
    let mut k = directory.as_bytes_vec();
    push_text(&mut k, group.token().as_str());
    k
}

/// The key of the pointer to a group's visible state generation.
pub fn state_cf_pointer_key(group: GroupId) -> (k: Vec<u8>)
    ensures
        k@ == local_group_bytes("local/state_cf/"@, group),
{
    local_group_key("local/state_cf/", group)
}

/// The prefix of every state generation pointer.
pub fn state_cf_pointer_prefix() -> (k: &'static [u8])
    ensures
        k@ == utf8("local/state_cf/"@),
{
    "local/state_cf/".as_bytes()
}

/// The key of a group's state generation allocator.
pub fn state_cf_generation_key(group: GroupId) -> (k: Vec<u8>)
    ensures
        k@ == local_group_bytes("local/state_cf_generation/"@, group),
{
    local_group_key("local/state_cf_generation/", group)
}

/// The key of the registration this process identity runs under.
pub fn registration_binding_key() -> (k: Vec<u8>)
    ensures
        k@ == utf8("local/registration_binding"@),
{
    "local/registration_binding".as_bytes_vec()
}

/// The key of a group's serving gate.
pub fn serving_key(group: GroupId) -> (k: Vec<u8>)
    ensures
        k@ == local_group_bytes("local/serving/"@, group),
{
    local_group_key("local/serving/", group)
}

/// The key of a group's learner admission.
pub fn admission_key(group: GroupId) -> (k: Vec<u8>)
    ensures
        k@ == local_group_bytes("local/admission/"@, group),
{
    local_group_key("local/admission/", group)
}

/// The key of a group's pending report.
pub fn pending_report_key(group: GroupId) -> (k: Vec<u8>)
    ensures
        k@ == local_group_bytes("local/pending_report/"@, group),
{
    local_group_key("local/pending_report/", group)
}

/// The key of a group's bootstrap record.
pub fn bootstrap_key(group: GroupId) -> (k: Vec<u8>)
    ensures
        k@ == local_group_bytes("local/bootstrap/"@, group),
{
    local_group_key("local/bootstrap/", group)
}

/// The prefix of a group's local search records.
pub fn search_prefix(group: GroupId) -> (k: Vec<u8>)
    ensures
        k@ == search_prefix_bytes(group),
{
    let mut k = local_group_key("local/search/", group);
    push_text(&mut k, "/");
    k
}

/// The key of a group's projection epoch.
pub fn search_epoch_key(group: GroupId) -> (k: Vec<u8>)
    ensures
        k@ == search_prefix_bytes(group) + utf8("epoch"@),
{
    let mut k = search_prefix(group);
    push_text(&mut k, "epoch");
    k
}

/// The prefix of a group's search outbox.
pub fn search_outbox_prefix(group: GroupId) -> (k: Vec<u8>)
    ensures
        k@ == search_outbox_prefix_bytes(group),
{
    let mut k = search_prefix(group);
    push_text(&mut k, "outbox/");
    k
}

/// The prefix of one epoch of a group's search outbox.
pub fn search_outbox_epoch_prefix(group: GroupId, epoch: u64) -> (k: Vec<u8>)
    ensures
        k@ == search_outbox_prefix_bytes(group) + be_bytes(epoch as nat, 8),
{
    let mut k = search_outbox_prefix(group);
    push_be(&mut k, epoch as u128, 8);
    k
}

/// The prefix of a group's search consumers.
pub fn search_consumer_prefix(group: GroupId) -> (k: Vec<u8>)
    ensures
        k@ == search_consumer_prefix_bytes(group),
{
    let mut k = search_prefix(group);
    push_text(&mut k, "consumer/");
    k
}

/// The key of one search consumer.
pub fn search_consumer_key(group: GroupId, name: &str, generation: u64) -> (k: Vec<u8>)
    requires
        fits_frame(name@),
    ensures
        k@ == search_consumer_bytes(group, name@, generation),
{
    let mut k = search_consumer_prefix(group);
    push_name(&mut k, name);
    push_be(&mut k, generation as u128, 8);
    k
}

/// `String::from_utf8`: bytes that are well-formed UTF-8 become the text they
/// spell, all others are refused.
#[verifier::external_body]
fn text_of_utf8(bytes: Vec<u8>) -> (r: Option<String>)
    ensures
        match r {
            Some(s) => valid_utf8(bytes@) && encode_utf8(s@) == bytes@,
            None => !valid_utf8(bytes@),
        },
{
    String::from_utf8(bytes).ok()
}

pub fn starts_with(key: &[u8], prefix: &[u8]) -> (yes: bool)
    ensures
        yes == prefix@.is_prefix_of(key@),
{
    if key.len() < prefix.len() {
        return false;
    }
    let mut i: usize = 0;
    while i < prefix.len()
        invariant
            i <= prefix@.len() <= key@.len(),
            forall|k: int| 0 <= k < i ==> prefix@[k] == key@[k],
        decreases prefix@.len() - i,
    {
        if key[i] != prefix[i] {
            proof {
                assert(key@.subrange(0, prefix@.len() as int)[i as int] == key@[i as int]);
            }
            return false;
        }
        i += 1;
    }
    assert(prefix@ =~= key@.subrange(0, prefix@.len() as int));
    true
}

fn slice_copy(bytes: &[u8], from: usize, to: usize) -> (out: Vec<u8>)
    requires
        from <= to <= bytes@.len(),
    ensures
        out@ == bytes@.subrange(from as int, to as int),
{
    let mut out: Vec<u8> = Vec::new();
    let mut i: usize = from;
    while i < to
        invariant
            from <= i <= to <= bytes@.len(),
            out@ == bytes@.subrange(from as int, i as int),
        decreases to - i,
    {
        out.push(bytes[i]);
        proof {
            assert(out@ =~= bytes@.subrange(from as int, i + 1));
        }
        i += 1;
    }
    out
}

fn corrupt_consumer(detail: &str) -> (e: Error)
    ensures
        e@ == ErrorView::Corrupt("search consumer key"@, detail@),
{
    Error::Corrupt("search consumer key".to_owned(), detail.to_owned())
}

/// Recover the index name and generation from a consumer key.
pub fn decode_search_consumer_key(group: GroupId, key: &[u8]) -> (r: Result<(String, u64), Error>)
    ensures
        match r {
            Ok((name, generation)) => consumer_of(group, key@) == Ok::<
                (Seq<char>, u64),
                Seq<char>,
            >((name@, generation)),
            Err(e) => consumer_of(group, key@) matches Err(detail) && e@ == ErrorView::Corrupt(
                "search consumer key"@,
                detail,
            ),
        },
{
    let prefix = search_consumer_prefix(group);
    if !starts_with(key, &prefix) {
        return Err(corrupt_consumer("key has the wrong group prefix"));
    }
    let base: usize = prefix.len();
    let rest: usize = key.len() - base;
    let ghost tail = key@.skip(base as int);
    if rest < 4 {
        return Err(corrupt_consumer("key is truncated"));
    }
    let len: u128 = read_be(key, base, base + 4);
    proof {
        assert(key@.subrange(base as int, base + 4) =~= tail.take(4));
    }
    if ((rest - 4) as u128) < len {
        return Err(corrupt_consumer("name runs past the key"));
    }
    let name_len: usize = len as usize;
    if rest - 4 - name_len < 8 {
        return Err(corrupt_consumer("key has no generation"));
    }
    let name = slice_copy(key, base + 4, base + 4 + name_len);
    let generation: u128 = read_be(key, base + 4 + name_len, base + 4 + name_len + 8);
    proof {
        assert(name@ =~= tail.subrange(4, 4 + name_len));
        assert(key@.subrange(base + 4 + name_len, base + 4 + name_len + 8) =~= tail.subrange(
            4 + name_len,
            4 + name_len + 8,
        ));
        lemma_capacities();
    }
    match text_of_utf8(name) {
        Some(text) => {
            proof {
                vstd::utf8::encode_utf8_decode_utf8(text@);
            }
            Ok((text, generation as u64))
        },
        None => Err(corrupt_consumer("name is not UTF-8")),
    }
}

/// A text is determined by its bytes.
pub proof fn lemma_utf8_injective(a: Seq<char>, b: Seq<char>)
    requires
        utf8(a) == utf8(b),
    ensures
        a == b,
{
    vstd::utf8::encode_utf8_decode_utf8(a);
    vstd::utf8::encode_utf8_decode_utf8(b);
}

/// What a token is made of: ASCII letters, digits and a hyphen, so never a slash.
proof fn lemma_token_plain(group: GroupId)
    ensures
        vstd::utf8::is_ascii_chars(group.spec_token()),
        forall|i: int|
            0 <= i < utf8(group.spec_token()).len() ==> #[trigger] utf8(group.spec_token())[i]
                != 0x2f,
{
    let t = group.spec_token();
    reveal_strlit("meta");
    reveal_strlit("data-");
    match group {
        GroupId::Meta => {},
        GroupId::Data(p) => {
            lemma_radix_text_ascii(p as nat, 10);
            lemma_radix_text_value(p as nat, 10);
            let d = decimal(p as nat);
            assert forall|i: int| 0 <= i < t.len() implies '\0' <= #[trigger] t[i] <= '\u{7f}'
                && t[i] != '/' by {
                if i >= 5 {
                    assert(t[i] == d[i - 5]);
                    assert(crate::text::digit_value(d[i - 5]) is Some);
                }
            }
        },
    }
    assert(forall|i: int| 0 <= i < t.len() ==> t[i] != '/');
    vstd::utf8::is_ascii_chars_encode_utf8(t);
    assert forall|i: int| 0 <= i < utf8(t).len() implies #[trigger] utf8(t)[i] != 0x2f by {
        assert(t[i] as u8 == utf8(t)[i]);
        assert(t[i] as u32 <= 0x7f);
        assert('/' as u32 == 0x2f);
    }
}

/// Groups are told apart by their tokens.
pub proof fn lemma_token_injective(a: GroupId, b: GroupId)
    requires
        a.spec_token() == b.spec_token(),
    ensures
        a == b,
{
    reveal_strlit("meta");
    reveal_strlit("data-");
    match (a, b) {
        (GroupId::Data(x), GroupId::Data(y)) => {
            assert(a.spec_token().skip(5) =~= decimal(x as nat));
            assert(b.spec_token().skip(5) =~= decimal(y as nat));
            lemma_radix_text_injective(x as nat, y as nat, 10);
        },
        (GroupId::Meta, GroupId::Meta) => {},
        (GroupId::Meta, GroupId::Data(_)) => {
            assert(a.spec_token()[0] == 'm');
            assert(b.spec_token()[0] == 'd');
        },
        (GroupId::Data(_), GroupId::Meta) => {
            assert(a.spec_token()[0] == 'd');
            assert(b.spec_token()[0] == 'm');
        },
    }
}

/// No user record can stand under an internal, sequence or meta key: a user's
/// put never overwrites state the store keeps for itself.
pub proof fn law_user_keys_stand_apart(
    key: Seq<u8>,
    client_id: u128,
    node_id: NodeId,
    group: GroupId,
    name: Seq<char>,
    generation: u64,
)
    ensures
        user_bytes(key) != last_applied_bytes(),
        user_bytes(key) != raft_applied_bytes(),
        user_bytes(key) != seq_bytes(client_id),
        user_bytes(key) != meta_cluster_bytes(),
        user_bytes(key) != meta_node_bytes(node_id),
        user_bytes(key) != meta_placement_bytes(group),
        user_bytes(key) != meta_search_index_bytes(name),
        user_bytes(key) != meta_search_ready_bytes(name, generation, group, node_id),
{
    assert(user_bytes(key)[0] == TAG_USER);
    assert(last_applied_bytes()[0] == TAG_INTERNAL);
    assert(raft_applied_bytes()[0] == TAG_INTERNAL);
    assert(seq_bytes(client_id)[0] == TAG_SEQ);
    assert(meta_cluster_bytes()[0] == TAG_META);
    assert(meta_node_bytes(node_id)[0] == TAG_META);
    assert(meta_placement_bytes(group)[0] == TAG_META);
    assert(meta_search_index_bytes(name)[0] == TAG_META);
    assert(meta_search_ready_prefix_bytes(name, generation)[0] == TAG_META);
    assert(meta_search_ready_bytes(name, generation, group, node_id)[0] == TAG_META);
}

/// The singletons and the sequence records do not meet each other either.
pub proof fn law_internal_keys_distinct(client_id: u128)
    ensures
        last_applied_bytes() != raft_applied_bytes(),
        seq_bytes(client_id) != last_applied_bytes(),
        seq_bytes(client_id) != raft_applied_bytes(),
{
    assert(last_applied_bytes()[1] == 0x4c);
    assert(raft_applied_bytes()[1] == 0x52);
    assert(last_applied_bytes()[0] == TAG_INTERNAL);
    assert(raft_applied_bytes()[0] == TAG_INTERNAL);
    assert(seq_bytes(client_id)[0] == TAG_SEQ);
}

/// The five kinds of meta record have keys of their own.
pub proof fn law_meta_kinds_distinct(
    node_id: NodeId,
    group: GroupId,
    name: Seq<char>,
    other: Seq<char>,
    generation: u64,
    ready_group: GroupId,
    ready_node: NodeId,
)
    ensures
        meta_cluster_bytes() != meta_node_bytes(node_id),
        meta_cluster_bytes() != meta_placement_bytes(group),
        meta_cluster_bytes() != meta_search_index_bytes(name),
        meta_cluster_bytes() != meta_search_ready_bytes(other, generation, ready_group, ready_node),
        meta_node_bytes(node_id) != meta_placement_bytes(group),
        meta_node_bytes(node_id) != meta_search_index_bytes(name),
        meta_node_bytes(node_id) != meta_search_ready_bytes(
            other,
            generation,
            ready_group,
            ready_node,
        ),
        meta_placement_bytes(group) != meta_search_index_bytes(name),
        meta_placement_bytes(group) != meta_search_ready_bytes(
            other,
            generation,
            ready_group,
            ready_node,
        ),
        meta_search_index_bytes(name) != meta_search_ready_bytes(
            other,
            generation,
            ready_group,
            ready_node,
        ),
{
    assert(meta_cluster_bytes()[1] == 0x43);
    assert(meta_node_bytes(node_id)[1] == 0x4e);
    assert(meta_placement_bytes(group)[1] == 0x50);
    assert(meta_search_index_bytes(name)[1] == 0x53);
    assert(meta_search_ready_prefix_bytes(other, generation)[1] == 0x73);
    assert(meta_search_ready_bytes(other, generation, ready_group, ready_node)[1] == 0x73);
}

/// A user key is recovered from its record key, so different user keys have
/// different records.
pub proof fn law_user_key_injective(a: Seq<u8>, b: Seq<u8>)
    requires
        user_bytes(a) == user_bytes(b),
    ensures
        a == b,
{
    assert(user_bytes(a).skip(1) =~= a);
    assert(user_bytes(b).skip(1) =~= b);
}

/// Different clients have different sequence records.
pub proof fn law_seq_key_injective(a: u128, b: u128)
    requires
        seq_bytes(a) == seq_bytes(b),
    ensures
        a == b,
{
    lemma_capacities();
    assert(seq_bytes(a).skip(1) =~= be_bytes(a as nat, 16));
    assert(seq_bytes(b).skip(1) =~= be_bytes(b as nat, 16));
    lemma_be_injective(a as nat, b as nat, 16);
}

/// Different nodes have different directory records.
pub proof fn law_node_key_injective(a: NodeId, b: NodeId)
    requires
        meta_node_bytes(a) == meta_node_bytes(b),
    ensures
        a == b,
{
    lemma_capacities();
    assert(meta_node_bytes(a).skip(2) =~= be_bytes(a as nat, 8));
    assert(meta_node_bytes(b).skip(2) =~= be_bytes(b as nat, 8));
    lemma_be_injective(a as nat, b as nat, 8);
}

/// Different groups have different placement records.
pub proof fn law_placement_key_injective(a: GroupId, b: GroupId)
    requires
        meta_placement_bytes(a) == meta_placement_bytes(b),
    ensures
        a == b,
{
    assert(meta_placement_bytes(a).skip(2) =~= utf8(a.spec_token()));
    assert(meta_placement_bytes(b).skip(2) =~= utf8(b.spec_token()));
    lemma_utf8_injective(a.spec_token(), b.spec_token());
    lemma_token_injective(a, b);
}

/// A framed name is read back from any bytes that begin with it.
proof fn lemma_frame_unique(a: Seq<char>, b: Seq<char>, x: Seq<u8>, y: Seq<u8>)
    requires
        fits_frame(a),
        fits_frame(b),
        framed_name(a) + x == framed_name(b) + y,
    ensures
        a == b,
        x == y,
{
    lemma_capacities();
    lemma_be_bytes_len(utf8(a).len(), 4);
    lemma_be_bytes_len(utf8(b).len(), 4);
    let s = framed_name(a) + x;
    let t = framed_name(b) + y;
    assert(s.take(4) =~= be_bytes(utf8(a).len(), 4));
    assert(t.take(4) =~= be_bytes(utf8(b).len(), 4));
    lemma_be_injective(utf8(a).len(), utf8(b).len(), 4);
    let n = utf8(a).len() as int;
    assert(s.subrange(4, 4 + n) =~= utf8(a));
    assert(t.subrange(4, 4 + n) =~= utf8(b));
    lemma_utf8_injective(a, b);
    assert(s.skip(4 + n) =~= x);
    assert(t.skip(4 + n) =~= y);
}

/// Different index names have different records.
pub proof fn law_search_index_key_injective(a: Seq<char>, b: Seq<char>)
    requires
        fits_frame(a),
        fits_frame(b),
        meta_search_index_bytes(a) == meta_search_index_bytes(b),
    ensures
        a == b,
{
    let none = Seq::<u8>::empty();
    assert(meta_search_index_bytes(a).skip(2) =~= framed_name(a) + none);
    assert(meta_search_index_bytes(b).skip(2) =~= framed_name(b) + none);
    lemma_frame_unique(a, b, none, none);
}

/// Scanning under a generation's prefix meets that generation's claims and no
/// others.
pub proof fn law_ready_prefix_exact(
    name: Seq<char>,
    generation: u64,
    other: Seq<char>,
    other_generation: u64,
    group: GroupId,
    node_id: NodeId,
)
    requires
        fits_frame(name),
        fits_frame(other),
    ensures
        meta_search_ready_prefix_bytes(name, generation).is_prefix_of(
            meta_search_ready_bytes(other, other_generation, group, node_id),
        ) <==> name == other && generation == other_generation,
{
    lemma_capacities();
    let p = meta_search_ready_prefix_bytes(name, generation);
    let k = meta_search_ready_bytes(other, other_generation, group, node_id);
    let g = be_bytes(generation as nat, 8);
    let og = be_bytes(other_generation as nat, 8);
    lemma_be_bytes_len(generation as nat, 8);
    lemma_be_bytes_len(other_generation as nat, 8);
    if p.is_prefix_of(k) {
        let rest = k.skip(p.len() as int);
        assert(k =~= p + rest);
        assert(k.skip(2) =~= framed_name(name) + (g + rest));
        assert(k.skip(2) =~= framed_name(other) + (og + group_bytes(group) + be_bytes(
            node_id as nat,
            8,
        )));
        lemma_frame_unique(
            name,
            other,
            g + rest,
            og + group_bytes(group) + be_bytes(node_id as nat, 8),
        );
        let z = g + rest;
        assert(z.take(8) =~= g);
        assert((og + group_bytes(group) + be_bytes(node_id as nat, 8)).take(8) =~= og);
        lemma_be_injective(generation as nat, other_generation as nat, 8);
    }
    if name == other && generation == other_generation {
        assert(k.subrange(0, p.len() as int) =~= p);
    }
}

/// Different readiness claims of one generation have different records.
pub proof fn law_ready_key_injective(
    name: Seq<char>,
    generation: u64,
    group: GroupId,
    node_id: NodeId,
    other: Seq<char>,
    other_generation: u64,
    other_group: GroupId,
    other_node: NodeId,
)
    requires
        fits_frame(name),
        fits_frame(other),
        meta_search_ready_bytes(name, generation, group, node_id) == meta_search_ready_bytes(
            other,
            other_generation,
            other_group,
            other_node,
        ),
    ensures
        name == other,
        generation == other_generation,
        group == other_group,
        node_id == other_node,
{
    lemma_capacities();
    let p = meta_search_ready_prefix_bytes(name, generation);
    let a = meta_search_ready_bytes(name, generation, group, node_id);
    let b = meta_search_ready_bytes(other, other_generation, other_group, other_node);
    assert(p.is_prefix_of(a)) by {
        assert(a.subrange(0, p.len() as int) =~= p);
    }
    law_ready_prefix_exact(name, generation, other, other_generation, other_group, other_node);
    let x = a.skip(p.len() as int);
    let y = b.skip(p.len() as int);
    assert(x =~= group_bytes(group) + be_bytes(node_id as nat, 8));
    assert(y =~= group_bytes(other_group) + be_bytes(other_node as nat, 8));
    lemma_group_bytes(group);
    lemma_group_bytes(other_group);
    assert(x.take(3) =~= group_bytes(group));
    assert(y.take(3) =~= group_bytes(other_group));
    assert(x.skip(3) =~= be_bytes(node_id as nat, 8));
    assert(y.skip(3) =~= be_bytes(other_node as nat, 8));
    lemma_be_injective(node_id as nat, other_node as nat, 8);
    match (group, other_group) {
        (GroupId::Data(u), GroupId::Data(v)) => {
            assert(group_bytes(group).skip(1) =~= be_bytes(u as nat, 2));
            assert(group_bytes(other_group).skip(1) =~= be_bytes(v as nat, 2));
            lemma_be_injective(u as nat, v as nat, 2);
        },
        (GroupId::Meta, GroupId::Meta) => {},
        (GroupId::Meta, GroupId::Data(_)) => {
            assert(group_bytes(group)[0] == 0);
            assert(group_bytes(other_group)[0] == 1);
        },
        (GroupId::Data(_), GroupId::Meta) => {
            assert(group_bytes(group)[0] == 1);
            assert(group_bytes(other_group)[0] == 0);
        },
    }
}

proof fn lemma_group_bytes(group: GroupId)
    ensures
        group_bytes(group).len() == 3,
{
    match group {
        GroupId::Data(p) => {
            lemma_be_bytes_len(p as nat, 2);
        },
        GroupId::Meta => {},
    }
}

/// The local search records of one group never lie under another group's
/// prefix, even where one token begins with the other.
pub proof fn law_search_prefix_exact(a: GroupId, b: GroupId, rest: Seq<u8>)
    ensures
        search_prefix_bytes(a).is_prefix_of(search_prefix_bytes(b) + rest) <==> a == b,
{
    reveal_strlit("/");
    let d = utf8("local/search/"@);
    let n = d.len() as int;
    let ta = utf8(a.spec_token());
    let tb = utf8(b.spec_token());
    let p = search_prefix_bytes(a);
    let k = search_prefix_bytes(b) + rest;
    assert(vstd::utf8::is_ascii_chars("/"@));
    vstd::utf8::is_ascii_chars_encode_utf8("/"@);
    assert(utf8("/"@).len() == 1);
    assert(utf8("/"@)[0] == '/' as u8);
    assert('/' as u8 == 0x2f);
    lemma_token_plain(a);
    lemma_token_plain(b);
    if p.is_prefix_of(k) {
        assert forall|i: int| 0 <= i < p.len() implies #[trigger] p[i] == k[i] by {
            assert(k.subrange(0, p.len() as int)[i] == k[i]);
        }
        if ta.len() < tb.len() {
            assert(p[n + ta.len()] == 0x2f);
            assert(k[n + ta.len()] == tb[ta.len() as int]);
        } else if tb.len() < ta.len() {
            assert(p[n + tb.len()] == ta[tb.len() as int]);
            assert(k[n + tb.len()] == 0x2f);
        } else {
            assert forall|i: int| 0 <= i < ta.len() implies ta[i] == tb[i] by {
                assert(p[n + i] == ta[i]);
                assert(k[n + i] == tb[i]);
            }
            assert(ta =~= tb);
            lemma_utf8_injective(a.spec_token(), b.spec_token());
            lemma_token_injective(a, b);
        }
    }
    if a == b {
        assert(k.subrange(0, p.len() as int) =~= p);
    }
}

/// Scanning the state generation pointers never meets a generation allocator.
pub proof fn law_pointer_prefix_excludes_allocators(group: GroupId)
    ensures
        utf8("local/state_cf/"@).is_prefix_of(local_group_bytes("local/state_cf/"@, group)),
        !utf8("local/state_cf/"@).is_prefix_of(
            local_group_bytes("local/state_cf_generation/"@, group),
        ),
{
    reveal_strlit("local/state_cf/");
    reveal_strlit("local/state_cf_generation/");
    let p = utf8("local/state_cf/"@);
    let a = local_group_bytes("local/state_cf/"@, group);
    assert(a.subrange(0, p.len() as int) =~= p);
    assert(vstd::utf8::is_ascii_chars("local/state_cf/"@));
    assert(vstd::utf8::is_ascii_chars("local/state_cf_generation/"@));
    vstd::utf8::is_ascii_chars_encode_utf8("local/state_cf/"@);
    vstd::utf8::is_ascii_chars_encode_utf8("local/state_cf_generation/"@);
    let g = local_group_bytes("local/state_cf_generation/"@, group);
    let u = utf8("local/state_cf_generation/"@);
    assert("local/state_cf/"@[14] == '/');
    assert("local/state_cf_generation/"@[14] == '_');
    assert(p[14] == '/' as u8);
    assert(u[14] == '_' as u8);
    assert(g[14] == u[14]);
    if p.is_prefix_of(g) {
        assert(g.subrange(0, p.len() as int)[14] == g[14]);
        assert('/' as u8 == 0x2f);
        assert('_' as u8 == 0x5f);
    }
}

/// Reading back what was written: a consumer key names its index and its
/// generation.
pub proof fn law_consumer_key_round_trip(group: GroupId, name: Seq<char>, generation: u64)
    requires
        fits_frame(name),
    ensures
        consumer_of(group, search_consumer_bytes(group, name, generation)) == Ok::<
            (Seq<char>, u64),
            Seq<char>,
        >((name, generation)),
{
    lemma_capacities();
    let prefix = search_consumer_prefix_bytes(group);
    let key = search_consumer_bytes(group, name, generation);
    let n = utf8(name).len();
    lemma_be_bytes_len(n, 4);
    lemma_be_bytes_len(generation as nat, 8);
    assert(key.subrange(0, prefix.len() as int) =~= prefix);
    let rest = key.skip(prefix.len() as int);
    assert(rest =~= framed_name(name) + be_bytes(generation as nat, 8));
    assert(rest.take(4) =~= be_bytes(n, 4));
    lemma_be_round_trip(n, 4);
    assert(rest.subrange(4, 4 + n as int) =~= utf8(name));
    assert(rest.subrange(4 + n as int, 4 + n as int + 8) =~= be_bytes(generation as nat, 8));
    lemma_be_round_trip(generation as nat, 8);
    vstd::utf8::encode_utf8_valid_utf8(name);
    vstd::utf8::encode_utf8_decode_utf8(name);
}

/// Different consumers of a group have different keys.
pub proof fn law_consumer_key_injective(
    group: GroupId,
    name: Seq<char>,
    generation: u64,
    other: Seq<char>,
    other_generation: u64,
)
    requires
        fits_frame(name),
        fits_frame(other),
        search_consumer_bytes(group, name, generation) == search_consumer_bytes(
            group,
            other,
            other_generation,
        ),
    ensures
        name == other,
        generation == other_generation,
{
    law_consumer_key_round_trip(group, name, generation);
    law_consumer_key_round_trip(group, other, other_generation);
}

/// Every record stands under the tag of its kind, followed by what identifies it.
pub proof fn law_keys_carry_their_tag(key: Seq<u8>, client_id: u128, node_id: NodeId)
    ensures
        user_bytes(key)[0] == 1 && user_bytes(key).skip(1) == key,
        seq_bytes(client_id)[0] == 2 && seq_bytes(client_id).len() == 17 && be_value(
            seq_bytes(client_id).skip(1),
        ) == client_id,
        meta_node_bytes(node_id)[0] == 3 && meta_node_bytes(node_id).len() == 10 && be_value(
            meta_node_bytes(node_id).skip(2),
        ) == node_id,
{
    lemma_capacities();
    assert(user_bytes(key).skip(1) =~= key);
    lemma_be_bytes_len(client_id as nat, 16);
    assert(seq_bytes(client_id).skip(1) =~= be_bytes(client_id as nat, 16));
    lemma_be_round_trip(client_id as nat, 16);
    lemma_be_bytes_len(node_id as nat, 8);
    assert(meta_node_bytes(node_id).skip(2) =~= be_bytes(node_id as nat, 8));
    lemma_be_round_trip(node_id as nat, 8);
}

} // verus!
