//! Auralattice: the message fabric. Pulses are emitted into realms; a realm is
//! rooted by its first pulse and counts the pulses it has received.

use vstd::prelude::*;

verus! {

/// Marks an initialized fabric.
pub const PLIX_AURALATTICE_MAGIC: u64 = 0x4155_5241_4c41_5454;
/// Number of realms in a fabric.
pub const PLIX_MAX_REALMS: usize = 64;

/// A message from one realm to another.
pub struct PlixPulse {
    pub source: u64,
    pub target: u64,
    pub verb: u64,
    pub payload: [u64; 4],
}

/// One realm: its root (0 while unrooted), its epoch and its pulse count.
pub struct PlixRealm {
    pub root: u64,
    pub epoch: u64,
    pub pulse_count: u64,
}

/// The fabric.
pub struct PlixAuralattice {
    pub magic: u64,
    pub realm_count: u32,
    pub reserved: u32,
    pub realms: Vec<PlixRealm>,
}

/// Number of rooted realms.
pub open spec fn rooted_count(realms: Seq<PlixRealm>) -> nat
    decreases realms.len(),
{
    if realms.len() == 0 {
        0
    } else {
        rooted_count(realms.drop_last()) + if realms.last().root != 0 {
            1nat
        } else {
            0nat
        }
    }
}

/// The realm that a pulse leaves behind in `realm` at index `target`.
pub open spec fn pulsed(realm: PlixRealm, target: u64) -> PlixRealm {
    PlixRealm {
        root: if realm.root == 0 {
            (target + 1) as u64
        } else {
            realm.root
        },
        epoch: (realm.epoch + 1) as u64,
        pulse_count: (realm.pulse_count + 1) as u64,
    }
}

impl PlixAuralattice {
    /// The fabric has its full set of realms.
    pub open spec fn wf(&self) -> bool {
        self.realms.len() == PLIX_MAX_REALMS
    }

    /// What every operation keeps: the realm count is the number of rooted
    /// realms, a rooted realm's root is its index plus one, and each realm's
    /// epoch equals its pulse count.
    pub open spec fn consistent(&self) -> bool {
        &&& self.wf()
        &&& self.realm_count == rooted_count(self.realms@)
        &&& forall|i: int|
            0 <= i < self.realms.len() ==> (#[trigger] self.realms[i]).root == 0 || self.realms[i].root
                == i + 1
        &&& forall|i: int| 0 <= i < self.realms.len() ==> (#[trigger] self.realms[i]).epoch == self.realms[i].pulse_count
    }

    /// A fabric before initialization: all fields zero.
    pub fn new() -> (fabric: PlixAuralattice)
        ensures
            fabric.wf(),
            fabric.magic == 0,
            fabric.realm_count == 0,
            fabric.reserved == 0,
            forall|i: int| 0 <= i < PLIX_MAX_REALMS ==> #[trigger] fabric.realms[i] == (PlixRealm { root: 0, epoch: 0, pulse_count: 0 }),
    {
        let mut realms: Vec<PlixRealm> = Vec::new();
        let mut i: usize = 0;
        while i < PLIX_MAX_REALMS
            invariant
                i <= PLIX_MAX_REALMS,
                realms.len() == i,
                forall|j: int| 0 <= j < i ==> #[trigger] realms[j] == (PlixRealm { root: 0, epoch: 0, pulse_count: 0 }),
            decreases PLIX_MAX_REALMS - i,
        {
            realms.push(PlixRealm { root: 0, epoch: 0, pulse_count: 0 });
            i = i + 1;
        }
        PlixAuralattice { magic: 0, realm_count: 0, reserved: 0, realms }
    }
}

/// Initializes the fabric: only realm 0 is rooted, every count is zero.
pub fn plix_auralattice_init(fabric: &mut PlixAuralattice)
    ensures
        final(fabric).wf(),
        final(fabric).magic == PLIX_AURALATTICE_MAGIC,
        final(fabric).realm_count == 1,
        final(fabric).reserved == 0,
        forall|i: int|
            0 <= i < PLIX_MAX_REALMS ==> #[trigger] final(fabric).realms[i] == (PlixRealm {
                root: if i == 0 { 1 } else { 0 },
                epoch: 0,
                pulse_count: 0,
            }),
{
    fabric.magic = PLIX_AURALATTICE_MAGIC;
    fabric.realm_count = 1;
    fabric.reserved = 0;
    let mut realms: Vec<PlixRealm> = Vec::new();
    let mut i: usize = 0;
    while i < PLIX_MAX_REALMS
        invariant
            i <= PLIX_MAX_REALMS,
            realms.len() == i,
            forall|j: int|
                0 <= j < i ==> #[trigger] realms[j] == (PlixRealm {
                    root: if j == 0 { 1 } else { 0 },
                    epoch: 0,
                    pulse_count: 0,
                }),
        decreases PLIX_MAX_REALMS - i,
    {
        realms.push(PlixRealm { root: if i == 0 { 1 } else { 0 }, epoch: 0, pulse_count: 0 });
        i = i + 1;
    }
    fabric.realms = realms;
}

/// Emits a pulse into its target realm: roots the realm if it was unrooted and
/// advances its epoch and pulse count. Returns 0, or -1 with the fabric
/// unchanged when the fabric is not initialized or the target is out of range.
pub fn plix_auralattice_emit(fabric: &mut PlixAuralattice, pulse: &PlixPulse) -> (rc: i32)
    requires
        old(fabric).wf(),
        old(fabric).magic == PLIX_AURALATTICE_MAGIC && pulse.target < PLIX_MAX_REALMS ==> {
            let realm = old(fabric).realms[pulse.target as int];
            &&& realm.epoch < u64::MAX
            &&& realm.pulse_count < u64::MAX
            &&& realm.root == 0 ==> old(fabric).realm_count < u32::MAX
        },
    ensures
        final(fabric).wf(),
        if old(fabric).magic != PLIX_AURALATTICE_MAGIC || pulse.target >= PLIX_MAX_REALMS {
            rc == -1 && *final(fabric) == *old(fabric)
        } else {
            let t = pulse.target as int;
            &&& rc == 0
            &&& final(fabric).magic == old(fabric).magic
            &&& final(fabric).reserved == old(fabric).reserved
            &&& final(fabric).realm_count == old(fabric).realm_count + if old(fabric).realms[t].root == 0 {
                1int
            } else {
                0int
            }
            &&& final(fabric).realms@ == old(fabric).realms@.update(t, pulsed(old(fabric).realms[t], pulse.target))
        },
{
    if fabric.magic != PLIX_AURALATTICE_MAGIC || pulse.target >= PLIX_MAX_REALMS as u64 {
        return -1;
    }
    let t = pulse.target as usize;
    let old_realm = &fabric.realms[t];
    let mut root = old_realm.root;
    if root == 0 {
        root = pulse.target + 1;
        fabric.realm_count = fabric.realm_count + 1;
    }
    let realm = PlixRealm { root, epoch: old_realm.epoch + 1, pulse_count: old_realm.pulse_count + 1 };
    fabric.realms.set(t, realm);
    0
}

/// Replacing one realm changes the rooted count by what the two realms add.
pub proof fn lemma_rooted_count_update(realms: Seq<PlixRealm>, i: int, realm: PlixRealm)
    requires
        0 <= i < realms.len(),
    ensures
        rooted_count(realms.update(i, realm)) + (if realms[i].root != 0 { 1int } else { 0int })
            == rooted_count(realms) + (if realm.root != 0 { 1int } else { 0int }),
    decreases realms.len(),
{
    let updated = realms.update(i, realm);
    if i == realms.len() - 1 {
        assert(updated.drop_last() =~= realms.drop_last());
    } else {
        assert(updated.drop_last() =~= realms.drop_last().update(i, realm));
        lemma_rooted_count_update(realms.drop_last(), i, realm);
    }
}

/// At most every realm is rooted, and while one is unrooted fewer are.
pub proof fn lemma_rooted_count_bound(realms: Seq<PlixRealm>, i: int)
    requires
        0 <= i < realms.len(),
        realms[i].root == 0,
    ensures
        rooted_count(realms) < realms.len(),
    decreases realms.len(),
{
    lemma_rooted_count_le(realms.drop_last());
    if i < realms.len() - 1 {
        lemma_rooted_count_bound(realms.drop_last(), i);
    }
}

proof fn lemma_rooted_count_le(realms: Seq<PlixRealm>)
    ensures
        rooted_count(realms) <= realms.len(),
    decreases realms.len(),
{
    if realms.len() > 0 {
        lemma_rooted_count_le(realms.drop_last());
    }
}

/// Initialization leaves the fabric consistent.
pub proof fn law_init_consistent(fabric: PlixAuralattice)
    requires
        fabric.wf(),
        fabric.magic == PLIX_AURALATTICE_MAGIC,
        fabric.realm_count == 1,
        forall|i: int|
            0 <= i < PLIX_MAX_REALMS ==> #[trigger] fabric.realms[i] == (PlixRealm {
                root: if i == 0 { 1 } else { 0 },
                epoch: 0,
                pulse_count: 0,
            }),
    ensures
        fabric.consistent(),
{
    lemma_rooted_count_initial(fabric.realms@, fabric.realms@.len() as int);
    assert(fabric.realms@.take(PLIX_MAX_REALMS as int) =~= fabric.realms@);
}

proof fn lemma_rooted_count_initial(realms: Seq<PlixRealm>, n: int)
    requires
        1 <= n <= realms.len(),
        realms[0].root == 1,
        forall|i: int| 1 <= i < realms.len() ==> #[trigger] realms[i].root == 0,
    ensures
        rooted_count(realms.take(n)) == 1,
    decreases n,
{
    if n > 1 {
        assert(realms.take(n).drop_last() =~= realms.take(n - 1));
        assert(realms.take(n).last() == realms[n - 1]);
        assert(realms[n - 1].root == 0);
        lemma_rooted_count_initial(realms, n - 1);
    } else {
        assert(realms.take(1).drop_last() =~= Seq::<PlixRealm>::empty());
        assert(realms.take(1).last() == realms[0]);
        assert(rooted_count(Seq::<PlixRealm>::empty()) == 0);
    }
}

/// Emitting a pulse into a consistent fabric is always possible while the
/// target's counters have room, and keeps it consistent.
pub proof fn law_emit_keeps_consistency(before: PlixAuralattice, after: PlixAuralattice, pulse: PlixPulse)
    requires
        before.consistent(),
        before.magic == PLIX_AURALATTICE_MAGIC,
        pulse.target < PLIX_MAX_REALMS,
        before.realms[pulse.target as int].pulse_count < u64::MAX,
        after.magic == before.magic,
        after.realm_count == before.realm_count + if before.realms[pulse.target as int].root == 0 {
            1int
        } else {
            0int
        },
        after.realms@ == before.realms@.update(
            pulse.target as int,
            pulsed(before.realms[pulse.target as int], pulse.target),
        ),
    ensures
        after.consistent(),
        before.realms[pulse.target as int].root == 0 ==> before.realm_count < u32::MAX,
{
    let t = pulse.target as int;
    let realm = before.realms[t];
    lemma_rooted_count_update(before.realms@, t, pulsed(realm, pulse.target));
    if realm.root == 0 {
        lemma_rooted_count_bound(before.realms@, t);
    }
    assert forall|i: int| 0 <= i < after.realms.len() implies (#[trigger] after.realms[i]).root == 0
        || after.realms[i].root == i + 1 by {
        if i != t {
            assert(after.realms[i] == before.realms[i]);
        }
    }
    assert forall|i: int| 0 <= i < after.realms.len() implies (#[trigger] after.realms[i]).epoch
        == after.realms[i].pulse_count by {
        if i != t {
            assert(after.realms[i] == before.realms[i]);
        }
    }
}

} // verus!
