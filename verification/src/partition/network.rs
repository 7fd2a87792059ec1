//! Injected faults on the links between nodes.
use crate::assoc::{
    as_map, del, keys_distinct, lemma_del, lemma_del_map, lemma_put, lemma_put_map, lemma_slot,
    lemma_slot_is, put, slot,
};
use crate::text::{decimal, prefixed, to_decimal};
use crate::time::{spec_saturating_add, Duration, MAX_NANOS};
use crate::types::NodeId;
use vstd::prelude::*;

verus! {

/// A directed link: the node that sends and the node that receives.
pub type Link = (NodeId, NodeId);

/// How long every other call is held back on a link whose calls are reordered,
/// in milliseconds.
pub const REORDER_DELAY_MILLIS: u64 = 40;

/// A value per directed link.
struct LinkTable<T> {
    entries: Vec<(Link, T)>,
}

impl<T: Copy> LinkTable<T> {
    spec fn table(&self) -> Map<Link, T> {
        as_map(self.entries@)
    }

    spec fn valid(&self) -> bool {
        keys_distinct(self.entries@)
    }

    fn new() -> (t: LinkTable<T>)
        ensures
            t.valid(),
            t.table() == Map::<Link, T>::empty(),
    {
        let t = LinkTable { entries: Vec::new() };
        assert(t.table() =~= Map::<Link, T>::empty());
        t
    }

    fn find(&self, link: Link) -> (i: usize)
        ensures
            i == slot(self.entries@, link),
            i <= self.entries@.len(),
    {
        let mut i: usize = 0;
        while i < self.entries.len() && !(self.entries[i].0.0 == link.0 && self.entries[i].0.1
            == link.1)
            invariant
                i <= self.entries@.len(),
                forall|j: int| 0 <= j < i ==> (#[trigger] self.entries@[j]).0 != link,
            decreases self.entries@.len() - i,
        {
            i += 1;
        }
        proof {
            lemma_slot_is(self.entries@, link, i as int);
        }
        i
    }

    fn lookup(&self, link: Link) -> (r: Option<T>)
        ensures
            r == if self.table().contains_key(link) {
                Some(self.table()[link])
            } else {
                None
            },
    {
        let i: usize = self.find(link);
        proof {
            lemma_slot(self.entries@, link);
        }
        if i < self.entries.len() {
            Some(self.entries[i].1)
        } else {
            None
        }
    }

    fn insert(&mut self, link: Link, value: T)
        requires
            old(self).valid(),
        ensures
            final(self).valid(),
            final(self).table() == old(self).table().insert(link, value),
    {
        let ghost before = self.entries@;
        let i: usize = self.find(link);
        if i < self.entries.len() {
            self.entries.set(i, (link, value));
        } else {
            self.entries.push((link, value));
        }
        proof {
            assert(self.entries@ =~= put(before, link, value));
            lemma_put(before, link, value);
            lemma_put_map(before, link, value);
        }
    }

    fn remove(&mut self, link: Link)
        requires
            old(self).valid(),
        ensures
            final(self).valid(),
            final(self).table() == old(self).table().remove(link),
    {
        let ghost before = self.entries@;
        let i: usize = self.find(link);
        if i < self.entries.len() {
            self.entries.remove(i);
        }
        proof {
            assert(self.entries@ =~= del(before, link));
            lemma_del(before, link);
            lemma_del_map(before, link);
        }
    }
}

/// The faults in force.
#[verifier::ext_equal]
pub struct FaultsView {
    /// Links that drop every call.
    pub blocked: Set<Link>,
    /// Links that delay every call, and by how long.
    pub delays: Map<Link, Duration>,
    /// Links that deliver every append twice.
    pub duplicated: Set<Link>,
    /// Links that delay every other call, with the calls counted so far.
    pub reordered: Map<Link, u64>,
}

/// Directed link faults. A blocked link drops every call; block both directions
/// for a full partition. A set of faults is never copied: the links that it is to
/// act on share the one set, so that lifting the faults reaches all of them.
pub struct Faults {
    blocked: LinkTable<()>,
    delays: LinkTable<Duration>,
    duplicated: LinkTable<()>,
    reordered: LinkTable<u64>,
}

impl FaultsView {
    /// No faults.
    pub open spec fn none() -> FaultsView {
        FaultsView {
            blocked: Set::empty(),
            delays: Map::empty(),
            duplicated: Set::empty(),
            reordered: Map::empty(),
        }
    }
}

impl View for Faults {
    type V = FaultsView;

    closed spec fn view(&self) -> FaultsView {
        FaultsView {
            blocked: self.blocked.table().dom(),
            delays: self.delays.table(),
            duplicated: self.duplicated.table().dom(),
            reordered: self.reordered.table(),
        }
    }
}

/// The links between a node and its peers, both ways.
pub open spec fn links_of(node: NodeId, peers: Seq<NodeId>) -> Set<Link> {
    Set::new(
        |l: Link|
            (l.0 == node && peers.contains(l.1)) || (l.1 == node && peers.contains(l.0)),
    )
}

/// How long a call on a link is held back, in nanoseconds, given the faults and
/// how many reordered calls were counted before it.
pub open spec fn delay_on(f: FaultsView, link: Link) -> Option<nat> {
    let explicit = if f.delays.contains_key(link) {
        Some(f.delays[link]@)
    } else {
        None
    };
    let held = f.reordered.contains_key(link) && counted(f.reordered[link]) % 2 == 1;
    let wait = REORDER_DELAY_MILLIS as nat * 1_000_000;
    match explicit {
        Some(d) => if held {
            Some(spec_saturating_add(d, wait))
        } else {
            Some(d)
        },
        None => if held {
            Some(wait)
        } else {
            None
        },
    }
}

/// The next count of reordered calls; it stops at the greatest number.
pub open spec fn counted(n: u64) -> u64 {
    if n == u64::MAX {
        n
    } else {
        (n + 1) as u64
    }
}

/// The faults after a call on a link, which counts where its calls are reordered.
pub open spec fn after_call(f: FaultsView, link: Link) -> FaultsView {
    FaultsView {
        reordered: if f.reordered.contains_key(link) {
            f.reordered.insert(link, counted(f.reordered[link]))
        } else {
            f.reordered
        },
        ..f
    }
}

impl Faults {
    pub closed spec fn valid(&self) -> bool {
        self.blocked.valid() && self.delays.valid() && self.duplicated.valid()
            && self.reordered.valid()
    }

    /// No faults.
    pub fn new() -> (f: Faults)
        ensures
            f.valid(),
            f@ == FaultsView::none(),
    {
        let f = Faults {
            blocked: LinkTable::new(),
            delays: LinkTable::new(),
            duplicated: LinkTable::new(),
            reordered: LinkTable::new(),
        };
        assert(f@.blocked =~= Set::<Link>::empty());
        assert(f@.duplicated =~= Set::<Link>::empty());
        f
    }

    pub fn block(&mut self, from: NodeId, to: NodeId)
        requires
            old(self).valid(),
        ensures
            final(self).valid(),
            final(self)@ == (FaultsView {
                blocked: old(self)@.blocked.insert((from, to)),
                ..old(self)@
            }),
    {
        self.blocked.insert((from, to), ());
        assert(self@.blocked =~= old(self)@.blocked.insert((from, to)));
    }

    pub fn unblock(&mut self, from: NodeId, to: NodeId)
        requires
            old(self).valid(),
        ensures
            final(self).valid(),
            final(self)@ == (FaultsView {
                blocked: old(self)@.blocked.remove((from, to)),
                ..old(self)@
            }),
    {
        self.blocked.remove((from, to));
        assert(self@.blocked =~= old(self)@.blocked.remove((from, to)));
    }

    /// Delay every call on a link.
    pub fn delay(&mut self, from: NodeId, to: NodeId, duration: Duration)
        requires
            old(self).valid(),
        ensures
            final(self).valid(),
            final(self)@ == (FaultsView {
                delays: old(self)@.delays.insert((from, to), duration),
                ..old(self)@
            }),
    {
        self.delays.insert((from, to), duration);
    }

    /// Deliver every append on a link twice.
    pub fn duplicate(&mut self, from: NodeId, to: NodeId)
        requires
            old(self).valid(),
        ensures
            final(self).valid(),
            final(self)@ == (FaultsView {
                duplicated: old(self)@.duplicated.insert((from, to)),
                ..old(self)@
            }),
    {
        self.duplicated.insert((from, to), ());
        assert(self@.duplicated =~= old(self)@.duplicated.insert((from, to)));
    }

    /// Delay alternating calls on a link, so that calls issued together can
    /// arrive in the opposite order.
    pub fn reorder(&mut self, from: NodeId, to: NodeId)
        requires
            old(self).valid(),
        ensures
            final(self).valid(),
            final(self)@ == (FaultsView {
                reordered: old(self)@.reordered.insert((from, to), 0),
                ..old(self)@
            }),
    {
        self.reordered.insert((from, to), 0);
    }

    /// Cut a node off from its peers in both directions.
    pub fn isolate(&mut self, node: NodeId, peers: &[NodeId])
        requires
            old(self).valid(),
        ensures
            final(self).valid(),
            final(self)@ == (FaultsView {
                blocked: old(self)@.blocked.union(links_of(node, peers@)),
                ..old(self)@
            }),
    {
        let ghost before = self@;
        let mut i: usize = 0;
        assert(before.blocked.union(links_of(node, peers@.take(0))) =~= before.blocked) by {
            assert(peers@.take(0) =~= Seq::<NodeId>::empty());
        }
        while i < peers.len()
            invariant
                i <= peers@.len(),
                self.valid(),
                self@ == (FaultsView {
                    blocked: before.blocked.union(links_of(node, peers@.take(i as int))),
                    ..before
                }),
            decreases peers@.len() - i,
        {
            self.block(node, peers[i]);
            self.block(peers[i], node);
            proof {
                let head = peers@.take(i as int);
                let next = peers@.take(i + 1);
                assert(next =~= head.push(peers@[i as int]));
                assert forall|p: NodeId| next.contains(p) == (head.contains(p) || p
                    == peers@[i as int]) by {
                    if head.contains(p) {
                        let j = choose|j: int| 0 <= j < head.len() && head[j] == p;
                        assert(next[j] == p);
                    }
                    if p == peers@[i as int] {
                        assert(next[i as int] == p);
                    }
                    if next.contains(p) && p != peers@[i as int] {
                        let j = choose|j: int| 0 <= j < next.len() && next[j] == p;
                        assert(head[j] == p);
                    }
                }
                assert(self@.blocked =~= before.blocked.union(links_of(node, next)));
            }
            i += 1;
        }
        assert(peers@.take(i as int) =~= peers@);
    }

    /// Lift every fault.
    pub fn heal(&mut self)
        ensures
            final(self).valid(),
            final(self)@ == FaultsView::none(),
    {
        let fresh = Faults::new();
        self.blocked = fresh.blocked;
        self.delays = fresh.delays;
        self.duplicated = fresh.duplicated;
        self.reordered = fresh.reordered;
    }

    pub fn is_blocked(&self, from: NodeId, to: NodeId) -> (yes: bool)
        ensures
            yes == self@.blocked.contains((from, to)),
    {
        self.blocked.lookup((from, to)).is_some()
    }

    pub fn is_duplicated(&self, from: NodeId, to: NodeId) -> (yes: bool)
        ensures
            yes == self@.duplicated.contains((from, to)),
    {
        self.duplicated.lookup((from, to)).is_some()
    }

    /// How long the next call on a link is held back. Asking counts the call.
    pub fn delay_for(&mut self, from: NodeId, to: NodeId) -> (r: Option<Duration>)
        requires
            old(self).valid(),
        ensures
            final(self).valid(),
            final(self)@ == after_call(old(self)@, (from, to)),
            match r {
                Some(d) => delay_on(old(self)@, (from, to)) == Some(d@),
                None => delay_on(old(self)@, (from, to)) is None,
            },
    {
        let explicit: Option<Duration> = self.delays.lookup((from, to));
        let mut held: bool = false;
        if let Some(count) = self.reordered.lookup((from, to)) {
            let next: u64 = count.saturating_add(1);
            self.reordered.insert((from, to), next);
            held = next % 2 == 1;
        }
        let wait = Duration::from_millis(REORDER_DELAY_MILLIS);
        match (explicit, held) {
            (Some(d), true) => Some(d.saturating_add(wait)),
            (Some(d), false) => Some(d),
            (None, true) => Some(wait),
            (None, false) => None,
        }
    }
}

impl Default for Faults {
    fn default() -> (f: Faults)
        ensures
            f.valid(),
            f@ == FaultsView::none(),
    {
        Faults::new()
    }
}

/// What a caller reads when a link drops its call.
pub fn link_down_text(local: NodeId, target: NodeId) -> (s: String)
    ensures
        s@ == "link "@ + decimal(local as nat) + "->"@ + decimal(target as nat)
            + " is partitioned"@,
{
    let mut s = prefixed("link ", to_decimal(local as u128).as_str());
    s.append("->");
    s.append(to_decimal(target as u128).as_str());
    s.append(" is partitioned");
    s
}

/// What a caller reads when the target runs no replica.
pub fn target_gone_text(target: NodeId) -> (s: String)
    ensures
        s@ == "node "@ + decimal(target as nat) + " not registered"@,
{
    let mut s = prefixed("node ", to_decimal(target as u128).as_str());
    s.append(" not registered");
    s
}

/// What a call meets on a link.
#[derive(Debug, Clone, Copy, PartialEq, Eq, Structural)]
pub enum Delivery {
    /// The link is partitioned: the call fails.
    Dropped,
    /// Delivered after a wait, and once more before it if the link duplicates.
    Delivered { delay: Option<Duration>, twice: bool },
}

/// What the next append on a link meets. A dropped call counts as none.
pub fn deliver(faults: &mut Faults, from: NodeId, to: NodeId) -> (d: Delivery)
    requires
        old(faults).valid(),
    ensures
        final(faults).valid(),
        match d {
            Delivery::Dropped => old(faults)@.blocked.contains((from, to)) && *final(faults)
                == *old(faults),
            Delivery::Delivered { delay, twice } => {
                &&& !old(faults)@.blocked.contains((from, to))
                &&& twice == old(faults)@.duplicated.contains((from, to))
                &&& match delay {
                    Some(wait) => delay_on(old(faults)@, (from, to)) == Some(wait@),
                    None => delay_on(old(faults)@, (from, to)) is None,
                }
                &&& final(faults)@ == after_call(old(faults)@, (from, to))
            },
        },
{
    if faults.is_blocked(from, to) {
        return Delivery::Dropped;
    }
    let delay = faults.delay_for(from, to);
    Delivery::Delivered { delay, twice: faults.is_duplicated(from, to) }
}

/// Where the faults have been lifted, every link is as in a set that never had
/// any: no call is dropped, delivered twice or held back, and calls leave no
/// trace.
pub proof fn law_heal_lifts_every_fault(healed: FaultsView, link: Link)
    requires
        healed == FaultsView::none(),
    ensures
        !healed.blocked.contains(link),
        !healed.duplicated.contains(link),
        delay_on(healed, link) is None,
        after_call(healed, link) == healed,
{
}

/// On a reordered link without a fixed delay the calls alternate: one is held
/// back, the next is not.
pub proof fn law_reordered_calls_alternate(f: FaultsView, g: FaultsView, link: Link)
    requires
        f.reordered.contains_key(link),
        f.reordered[link] < u64::MAX - 1,
        !f.delays.contains_key(link),
        g == after_call(f, link),
    ensures
        delay_on(f, link) is Some <==> delay_on(g, link) is None,
{
}

/// The wait that a call gets: the link's own delay, if it has one, and the
/// reordering pause on top for every other call over a reordered link, beginning
/// with the first. A call counts on its own link only.
pub proof fn law_calls_wait(f: FaultsView, link: Link, other: Link)
    ensures
        ({
            let pause = REORDER_DELAY_MILLIS as nat * 1_000_000;
            let held = f.reordered.contains_key(link) && f.reordered[link] < u64::MAX
                && f.reordered[link] % 2 == 0;
            let counting = f.reordered.contains_key(link) && f.reordered[link] < u64::MAX;
            &&& !f.reordered.contains_key(link) && !f.delays.contains_key(link) ==> delay_on(
                f,
                link,
            ) is None
            &&& !f.reordered.contains_key(link) && f.delays.contains_key(link) ==> delay_on(f, link)
                == Some(f.delays[link]@)
            &&& counting && !f.delays.contains_key(link) ==> delay_on(f, link) == if held {
                Some(pause)
            } else {
                None
            }
            &&& counting && f.delays.contains_key(link) && f.delays[link]@ + pause
                <= MAX_NANOS ==> delay_on(f, link) == Some(
                f.delays[link]@ + if held {
                    pause
                } else {
                    0
                },
            )
            &&& counting ==> after_call(f, link).reordered == f.reordered.insert(
                link,
                (f.reordered[link] + 1) as u64,
            )
            &&& other != link ==> delay_on(after_call(f, link), other) == delay_on(f, other)
            &&& after_call(f, link).blocked == f.blocked && after_call(f, link).delays == f.delays
                && after_call(f, link).duplicated == f.duplicated
        }),
{
}

/// Isolating a node touches every link between it and the peers, both ways, and no
/// other.
pub proof fn law_isolation_cuts_both_ways(node: NodeId, peers: Seq<NodeId>, link: Link)
    ensures
        links_of(node, peers).contains(link) <==> exists|i: int|
            0 <= i < peers.len() && (link == (node, #[trigger] peers[i]) || link == (peers[i], node)),
{
    if link.0 == node && peers.contains(link.1) {
        let i = peers.index_of(link.1);
        assert(link == (node, peers[i]));
    }
    if link.1 == node && peers.contains(link.0) {
        let i = peers.index_of(link.0);
        assert(link == (peers[i], node));
    }
}

} // verus!
