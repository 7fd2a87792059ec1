//! A node's durable records as plain values: its identity, the markers that let
//! groups start, and the meta group's state.
use crate::assoc::{
    del, get, keys_distinct, lemma_del, lemma_put, lemma_slot, lemma_slot_is, put, slot,
};
use crate::error::{Error, ErrorView};
use crate::meta::state::{MetaState, MetaView};
use crate::text::prefixed;
use crate::types::{
    BindingView, BootstrapGroup, BootstrapGroupView, GroupId, Identity, LearnerAdmission,
    RegistrationBinding, ServingState,
};
use vstd::prelude::*;

verus! {

/// One node's durable records.
pub struct Storage {
    pub identity: Option<Identity>,
    pub meta: MetaState,
    pub bootstrap: Vec<BootstrapGroup>,
    pub admissions: Vec<LearnerAdmission>,
    pub serving: Vec<(GroupId, ServingState)>,
    /// The groups whose state exists on this node.
    pub groups: Vec<GroupId>,
    pub binding: Option<RegistrationBinding>,
}

#[verifier::ext_equal]
pub struct StorageView {
    pub identity: Option<Identity>,
    pub meta: MetaView,
    pub bootstrap: Seq<(GroupId, BootstrapGroupView)>,
    pub admissions: Seq<(GroupId, LearnerAdmission)>,
    pub serving: Seq<(GroupId, ServingState)>,
    pub groups: Seq<GroupId>,
    pub binding: Option<BindingView>,
}

impl View for Storage {
    type V = StorageView;

    open spec fn view(&self) -> StorageView {
        StorageView {
            identity: self.identity,
            meta: self.meta@,
            bootstrap: self.bootstrap@.map_values(|b: BootstrapGroup| (b.group, b@)),
            admissions: self.admissions@.map_values(|a: LearnerAdmission| (a.group, a)),
            serving: self.serving@,
            groups: self.groups@,
            binding: match self.binding {
                Some(b) => Some(b@),
                None => None,
            },
        }
    }
}

impl StorageView {
    pub open spec fn serving_state(self, group: GroupId) -> Option<ServingState> {
        get(self.serving, group)
    }

    pub open spec fn bootstrap_group(self, group: GroupId) -> Option<BootstrapGroupView> {
        get(self.bootstrap, group)
    }

    pub open spec fn learner_admission(self, group: GroupId) -> Option<LearnerAdmission> {
        get(self.admissions, group)
    }

    /// Why a group may not start on this node, if it may not: it was given up, or
    /// neither a bootstrap marker nor a learner admission lets it.
    pub open spec fn start_defect(self, group: GroupId) -> Option<ErrorView> {
        if self.serving_state(group) == Some(ServingState::NonServing) {
            Some(
                ErrorView::Raft(
                    "group "@ + group.spec_token() + " was given up on this node"@,
                ),
            )
        } else if self.bootstrap_group(group) is None && self.learner_admission(group) is None {
            Some(
                ErrorView::Raft(
                    "group "@ + group.spec_token()
                        + " has neither a bootstrap marker nor a learner admission"@,
                ),
            )
        } else {
            None
        }
    }

    /// Why a group may not be served, if it may not: its storage failed, or it may
    /// not even start.
    pub open spec fn serving_defect(self, group: GroupId, healthy: bool) -> Option<ErrorView> {
        if !healthy {
            Some(ErrorView::Raft("storage of group "@ + group.spec_token() + " has failed"@))
        } else {
            self.start_defect(group)
        }
    }

    /// The records with a bootstrap marker stored.
    pub open spec fn with_bootstrap(self, record: BootstrapGroupView) -> StorageView {
        StorageView { bootstrap: put(self.bootstrap, record.group, record), ..self }
    }

    /// The records with a learner admission stored.
    pub open spec fn with_admission(self, record: LearnerAdmission) -> StorageView {
        StorageView { admissions: put(self.admissions, record.group, record), ..self }
    }

    /// The records with a group opened again under an admission.
    pub open spec fn admitted(self, record: LearnerAdmission) -> StorageView {
        StorageView {
            admissions: put(self.admissions, record.group, record),
            serving: del(self.serving, record.group),
            ..self
        }
    }

    /// The records with a group given up.
    pub open spec fn reclaimed(self, group: GroupId) -> StorageView {
        StorageView {
            admissions: del(self.admissions, group),
            serving: put(self.serving, group, ServingState::NonServing),
            ..self
        }
    }
}

/// Hold the identity that a data directory holds, if any, against the node that
/// opens it: whether it is new, or why it is another node's.
pub fn check_identity(found: Option<Identity>, own: Identity) -> (r: Result<bool, Error>)
    ensures
        match found {
            None => r == Ok::<bool, Error>(true),
            Some(f) => if f == own {
                r == Ok::<bool, Error>(false)
            } else {
                r matches Err(e) && e@ == (ErrorView::IdentityMismatch {
                    found_cluster: f.cluster_id,
                    found_node: f.node_id,
                    want_cluster: own.cluster_id,
                    want_node: own.node_id,
                })
            },
        },
{
    match found {
        None => Ok(true),
        Some(f) => if f == own {
            Ok(false)
        } else {
            Err(
                Error::IdentityMismatch {
                    found_cluster: f.cluster_id,
                    found_node: f.node_id,
                    want_cluster: own.cluster_id,
                    want_node: own.node_id,
                },
            )
        },
    }
}

impl Storage {
    /// The records of a node that has none yet.
    pub fn new(identity: Option<Identity>) -> (s: Storage)
        ensures
            s@.identity == identity,
            s@.meta == MetaView::empty(),
            s@.bootstrap.len() == 0,
            s@.admissions.len() == 0,
            s@.serving.len() == 0,
            s@.groups.len() == 0,
            s@.binding is None,
    {
        Storage {
            identity,
            meta: MetaState::new(),
            bootstrap: Vec::new(),
            admissions: Vec::new(),
            serving: Vec::new(),
            groups: Vec::new(),
            binding: None,
        }
    }

    /// What is recorded of whether a group is served.
    pub fn serving_state(&self, group: GroupId) -> (r: Option<ServingState>)
        ensures
            r == self@.serving_state(group),
    {
        let i: usize = self.serving_slot(group);
        if i < self.serving.len() {
            Some(self.serving[i].1)
        } else {
            None
        }
    }

    /// Let a group start only under a durable record, and not once it was given up.
    pub fn authorize_group_start(&self, group: GroupId) -> (r: Result<(), Error>)
        ensures
            match r {
                Ok(_) => self@.start_defect(group) is None,
                Err(e) => self@.start_defect(group) == Some(e@),
            },
    {
        if let Some(ServingState::NonServing) = self.serving_state(group) {
            let mut s = prefixed("group ", group.token().as_str());
            s.append(" was given up on this node");
            return Err(Error::Raft(s));
        }
        if self.bootstrap_group(group).is_none() && self.learner_admission(group).is_none() {
            let mut s = prefixed("group ", group.token().as_str());
            s.append(" has neither a bootstrap marker nor a learner admission");
            return Err(Error::Raft(s));
        }
        Ok(())
    }

    /// The serving gate: let a group be served only while it may run here, on
    /// storage that takes writes.
    pub fn require_serving(&self, group: GroupId, healthy: bool) -> (r: Result<(), Error>)
        ensures
            match r {
                Ok(_) => self@.serving_defect(group, healthy) is None,
                Err(e) => self@.serving_defect(group, healthy) == Some(e@),
            },
    {
        if !healthy {
            let mut s = prefixed("storage of group ", group.token().as_str());
            s.append(" has failed");
            return Err(Error::Raft(s));
        }
        self.authorize_group_start(group)
    }

    /// The bootstrap marker of a group.
    pub fn bootstrap_group(&self, group: GroupId) -> (r: Option<&BootstrapGroup>)
        ensures
            match r {
                Some(b) => self@.bootstrap_group(group) == Some(b@),
                None => self@.bootstrap_group(group) is None,
            },
    {
        let mut i: usize = 0;
        while i < self.bootstrap.len() && self.bootstrap[i].group != group
            invariant
                i <= self.bootstrap@.len(),
                forall|j: int| 0 <= j < i ==> (#[trigger] self@.bootstrap[j]).0 != group,
            decreases self.bootstrap@.len() - i,
        {
            i += 1;
        }
        proof {
            lemma_slot_is(self@.bootstrap, group, i as int);
        }
        if i < self.bootstrap.len() {
            Some(&self.bootstrap[i])
        } else {
            None
        }
    }

    /// The learner admission of a group.
    pub fn learner_admission(&self, group: GroupId) -> (r: Option<LearnerAdmission>)
        ensures
            r == self@.learner_admission(group),
    {
        let i: usize = self.admission_slot(group);
        if i < self.admissions.len() {
            Some(self.admissions[i])
        } else {
            None
        }
    }

    /// Store a group's bootstrap marker where there is none.
    pub fn add_bootstrap_group(&mut self, record: BootstrapGroup)
        requires
            old(self)@.bootstrap_group(record.group) is None,
        ensures
            final(self)@ == old(self)@.with_bootstrap(record@),
    {
        proof {
            lemma_slot(self@.bootstrap, record.group);
        }
        self.bootstrap.push(record);
        proof {
            assert(self@.bootstrap =~= put(old(self)@.bootstrap, record.group, record@));
            assert(self@ =~= old(self)@.with_bootstrap(record@));
        }
    }

    /// Store a group's learner admission where there is none.
    pub fn add_learner_admission(&mut self, record: LearnerAdmission)
        requires
            old(self)@.learner_admission(record.group) is None,
        ensures
            final(self)@ == old(self)@.with_admission(record),
    {
        proof {
            lemma_slot(self@.admissions, record.group);
        }
        self.admissions.push(record);
        proof {
            assert(self@.admissions =~= put(old(self)@.admissions, record.group, record));
            assert(self@ =~= old(self)@.with_admission(record));
        }
    }

    fn serving_slot(&self, group: GroupId) -> (i: usize)
        ensures
            i == slot(self@.serving, group),
            i <= self.serving@.len(),
    {
        let mut i: usize = 0;
        while i < self.serving.len() && self.serving[i].0 != group
            invariant
                i <= self.serving@.len(),
                forall|j: int| 0 <= j < i ==> (#[trigger] self.serving@[j]).0 != group,
            decreases self.serving@.len() - i,
        {
            i += 1;
        }
        proof {
            lemma_slot_is(self@.serving, group, i as int);
        }
        i
    }

    fn admission_slot(&self, group: GroupId) -> (i: usize)
        ensures
            i == slot(self@.admissions, group),
            i <= self.admissions@.len(),
    {
        let mut i: usize = 0;
        while i < self.admissions.len() && self.admissions[i].group != group
            invariant
                i <= self.admissions@.len(),
                forall|j: int| 0 <= j < i ==> (#[trigger] self@.admissions[j]).0 != group,
            decreases self.admissions@.len() - i,
        {
            i += 1;
        }
        proof {
            lemma_slot_is(self@.admissions, group, i as int);
        }
        i
    }

    /// Let this node host a group as a learner, in place of an earlier admission
    /// and although the group was given up before.
    pub fn record_verified_learner_admission(&mut self, record: LearnerAdmission)
        ensures
            final(self)@ == old(self)@.admitted(record),
    {
        let i: usize = self.admission_slot(record.group);
        let k: usize = self.serving_slot(record.group);
        if i < self.admissions.len() {
            self.admissions.set(i, record);
        } else {
            self.admissions.push(record);
        }
        if k < self.serving.len() {
            self.serving.remove(k);
        }
        proof {
            assert(self@.admissions =~= old(self)@.admitted(record).admissions);
            assert(self@ =~= old(self)@.admitted(record));
        }
    }

    /// Give a group up: it is not served again until it is admitted anew.
    pub fn reclaim_group(&mut self, group: GroupId)
        ensures
            final(self)@ == old(self)@.reclaimed(group),
    {
        let i: usize = self.admission_slot(group);
        let k: usize = self.serving_slot(group);
        if i < self.admissions.len() {
            self.admissions.remove(i);
        }
        if k < self.serving.len() {
            self.serving.set(k, (group, ServingState::NonServing));
        } else {
            self.serving.push((group, ServingState::NonServing));
        }
        proof {
            assert(self@.admissions =~= old(self)@.reclaimed(group).admissions);
            assert(self@ =~= old(self)@.reclaimed(group));
        }
    }

    /// Store the registration that the process runs under.
    pub fn set_binding(&mut self, binding: RegistrationBinding)
        ensures
            final(self)@ == (StorageView { binding: Some(binding@), ..old(self)@ }),
    {
        self.binding = Some(binding);
    }

    /// Whether the group's state exists on this node.
    pub fn group_exists(&self, group: GroupId) -> (yes: bool)
        ensures
            yes == self@.groups.contains(group),
    {
        let mut i: usize = 0;
        while i < self.groups.len()
            invariant
                i <= self.groups@.len(),
                forall|j: int| 0 <= j < i ==> self.groups@[j] != group,
            decreases self.groups@.len() - i,
        {
            if self.groups[i] == group {
                return true;
            }
            i += 1;
        }
        false
    }
}

/// A group that was given up stays so, whatever was admitted before, until it is
/// admitted anew: until then it may neither start nor be served. Neither touches
/// another group.
pub proof fn law_reclaimed_groups_need_a_new_admission(
    s: StorageView,
    group: GroupId,
    record: LearnerAdmission,
    other: GroupId,
)
    requires
        keys_distinct(s.serving),
        keys_distinct(s.admissions),
        record.group == group,
    ensures
        s.reclaimed(group).serving_state(group) == Some(ServingState::NonServing),
        s.reclaimed(group).learner_admission(group) is None,
        s.reclaimed(group).start_defect(group) is Some,
        s.reclaimed(group).serving_defect(group, true) is Some,
        s.reclaimed(group).admitted(record).start_defect(group) is None,
        s.reclaimed(group).admitted(record).serving_defect(group, true) is None,
        s.reclaimed(group).admitted(record).serving_state(group) is None,
        s.reclaimed(group).admitted(record).learner_admission(group) == Some(record),
        other != group ==> s.reclaimed(group).serving_state(other) == s.serving_state(other)
            && s.reclaimed(group).learner_admission(other) == s.learner_admission(other)
            && s.admitted(record).serving_state(other) == s.serving_state(other) && s.admitted(
            record,
        ).learner_admission(other) == s.learner_admission(other),
{
    let gone = s.reclaimed(group);
    lemma_put(s.serving, group, ServingState::NonServing);
    lemma_del(s.admissions, group);
    lemma_put(gone.admissions, group, record);
    lemma_del(gone.serving, group);
    lemma_put(s.admissions, group, record);
    lemma_del(s.serving, group);
}

/// A group may start if and only if it was not given up on this node and the node
/// holds a bootstrap marker or a learner admission for it; it may serve if and only
/// if it may start and its storage is healthy.
pub proof fn law_groups_start_on_a_record(s: StorageView, group: GroupId, healthy: bool)
    ensures
        s.start_defect(group) is None <==> s.serving_state(group) != Some(ServingState::NonServing)
            && (s.bootstrap_group(group) is Some || s.learner_admission(group) is Some),
        s.serving_defect(group, healthy) is None <==> healthy && s.start_defect(group) is None,
{
}

} // verus!
