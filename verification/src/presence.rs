//! The presence tracker: a map from client identity to the instant it was
//! last seen, refreshed by request handling and pruned by a periodic
//! sweep, plus the served-bytes counter drained once per interval. The
//! lock around the tracker and the tasks that drive it live outside; every
//! decision about the map is made here.

use vstd::prelude::*;
use vstd::pervasive::VecAdditionalExecFns;

verus! {

/// How often the sweep task ticks, in milliseconds.
pub const SWEEP_INTERVAL_MILLIS: u64 = 1000;

/// How long an identity may stay silent before the next sweep removes it:
/// six sweep intervals.
pub const EXPIRY_MILLIS: u64 = 6 * SWEEP_INTERVAL_MILLIS;

/// Whether an entry last seen at `last` has expired by instant `now`.
pub open spec fn expired_spec(last: u64, now: u64) -> bool {
    now > last + EXPIRY_MILLIS
}

/// No two entries carry the same identity.
pub open spec fn key_distinct(s: Seq<(u128, u64)>) -> bool {
    forall|i: int, j: int| 0 <= i < j < s.len() ==> (#[trigger] s[i]).0 != (#[trigger] s[j]).0
}

/// The mapping a sequence of entries denotes.
pub open spec fn map_of(s: Seq<(u128, u64)>) -> Map<u128, u64>
    decreases s.len(),
{
    if s.len() == 0 {
        Map::empty()
    } else {
        map_of(s.drop_last()).insert(s.last().0, s.last().1)
    }
}

proof fn lemma_map_of_contains(s: Seq<(u128, u64)>, id: u128)
    ensures
        map_of(s).dom().contains(id) <==> exists|j: int|
            0 <= j < s.len() && (#[trigger] s[j]).0 == id,
    decreases s.len(),
{
    if s.len() > 0 {
        lemma_map_of_contains(s.drop_last(), id);
        if map_of(s).dom().contains(id) {
            if s.last().0 == id {
                assert(s[s.len() - 1].0 == id);
            } else {
                let j = choose|j: int| 0 <= j < s.drop_last().len() && (#[trigger] s.drop_last()[
                    j
                ]).0 == id;
                assert(s[j].0 == id);
            }
        }
        if exists|j: int| 0 <= j < s.len() && (#[trigger] s[j]).0 == id {
            let j = choose|j: int| 0 <= j < s.len() && (#[trigger] s[j]).0 == id;
            if j < s.len() - 1 {
                assert(s.drop_last()[j].0 == id);
            }
        }
    }
}

proof fn lemma_map_of_index(s: Seq<(u128, u64)>, j: int)
    requires
        key_distinct(s),
        0 <= j < s.len(),
    ensures
        map_of(s).dom().contains(s[j].0),
        map_of(s)[s[j].0] == s[j].1,
    decreases s.len(),
{
    if j == s.len() - 1 {
    } else {
        assert(forall|a: int, b: int|
            0 <= a < b < s.drop_last().len() ==> (#[trigger] s.drop_last()[a]).0 != (
            #[trigger] s.drop_last()[b]).0) by {
            assert(forall|a: int| 0 <= a < s.drop_last().len() ==> s.drop_last()[a] == s[a]);
        }
        lemma_map_of_index(s.drop_last(), j);
        assert(s[j].0 != s.last().0);
    }
}

proof fn lemma_map_of_len(s: Seq<(u128, u64)>)
    requires
        key_distinct(s),
    ensures
        map_of(s).dom().finite(),
        map_of(s).dom().len() == s.len(),
    decreases s.len(),
{
    broadcast use vstd::set::axiom_set_insert_len;

    if s.len() == 0 {
        assert(Map::<u128, u64>::empty().dom() =~= Set::empty());
    } else {
        assert(forall|a: int, b: int|
            0 <= a < b < s.drop_last().len() ==> (#[trigger] s.drop_last()[a]).0 != (
            #[trigger] s.drop_last()[b]).0) by {
            assert(forall|a: int| 0 <= a < s.drop_last().len() ==> s.drop_last()[a] == s[a]);
        }
        lemma_map_of_len(s.drop_last());
        lemma_map_of_contains(s.drop_last(), s.last().0);
        assert(!map_of(s.drop_last()).dom().contains(s.last().0)) by {
            if exists|j: int| 0 <= j < s.drop_last().len() && (#[trigger] s.drop_last()[j]).0
                == s.last().0 {
                let j = choose|j: int|
                    0 <= j < s.drop_last().len() && (#[trigger] s.drop_last()[j]).0 == s.last().0;
                assert(s[j].0 == s[s.len() - 1].0);
            }
        }
        assert(map_of(s).dom() == map_of(s.drop_last()).dom().insert(s.last().0));
    }
}

/// The map after one sweep at instant `now`: the fresh entries, unchanged.
pub open spec fn swept_map(m: Map<u128, u64>, now: u64) -> Map<u128, u64> {
    Map::new(|id: u128| m.dom().contains(id) && !expired_spec(m[id], now), |id: u128| m[id])
}

/// The identities one sweep at instant `now` removes and reports.
pub open spec fn swept_ids(m: Map<u128, u64>, now: u64) -> Set<u128> {
    m.dom().filter(|id: u128| expired_spec(m[id], now))
}

/// The shared map of who is watching: client identity (a numeric form of
/// its network address) to the instant it was last seen, in milliseconds
/// of a monotonic clock.
pub struct PresenceTracker {
    entries: Vec<(u128, u64)>,
}

impl View for PresenceTracker {
    type V = Map<u128, u64>;

    closed spec fn view(&self) -> Map<u128, u64> {
        map_of(self.entries@)
    }
}

impl PresenceTracker {
    /// Entries never repeat an identity.
    pub closed spec fn wf(&self) -> bool {
        key_distinct(self.entries@)
    }

    /// An empty tracker: nobody is present.
    pub fn new() -> (t: Self)
        ensures
            t.wf(),
            t@ == Map::<u128, u64>::empty(),
            t@.dom() =~= Set::<u128>::empty(),
    {
        let t = PresenceTracker { entries: Vec::new() };
        proof {
            assert(t@.dom() =~= Set::<u128>::empty());
        }
        t
    }

    /// How many identities are present.
    pub fn len(&self) -> (n: usize)
        requires
            self.wf(),
        ensures
            n == self@.dom().len(),
    {
        proof {
            lemma_map_of_len(self.entries@);
        }
        self.entries.len()
    }

    fn find(&self, id: u128) -> (r: Option<usize>)
        requires
            self.wf(),
        ensures
            match r {
                Some(i) => i < self.entries@.len() && self.entries@[i as int].0 == id,
                None => !self@.dom().contains(id),
            },
    {
        let n: usize = self.entries.len();
        let mut i: usize = 0;
        while i < n
            invariant
                i <= n == self.entries@.len(),
                forall|j: int| 0 <= j < i ==> (#[trigger] self.entries@[j]).0 != id,
            decreases n - i,
        {
            if self.entries[i].0 == id {
                return Some(i);
            }
            i += 1;
        }
        proof {
            lemma_map_of_contains(self.entries@, id);
        }
        None
    }

    /// Inserts or refreshes an identity at instant `now`. Returns whether
    /// this is a join: the identity was not present before.
    pub fn note_seen(&mut self, id: u128, now: u64) -> (joined: bool)
        requires
            old(self).wf(),
        ensures
            final(self).wf(),
            joined == !old(self)@.dom().contains(id),
            final(self)@ == old(self)@.insert(id, now),
    {
        let ghost s0 = self.entries@;
        match self.find(id) {
            Some(i) => {
                self.entries.set(i, (id, now));
                proof {
                    lemma_map_of_update(s0, i as int, now);
                    lemma_map_of_contains(s0, id);
                    lemma_map_of_index(s0, i as int);
                    assert(key_distinct(self.entries@)) by {
                        assert(forall|a: int|
                            0 <= a < s0.len() && a != i ==> self.entries@[a] == s0[a]);
                    }
                }
                false
            },
            None => {
                self.entries.push((id, now));
                proof {
                    assert(self.entries@.drop_last() == s0);
                    lemma_map_of_contains(s0, id);
                    assert(key_distinct(self.entries@)) by {
                        assert(forall|a: int| 0 <= a < s0.len() ==> self.entries@[a] == s0[a]);
                        assert(self.entries@[s0.len() as int].0 == id);
                    }
                }
                true
            },
        }
    }

    /// One sweep at instant `now`: removes every identity silent for
    /// longer than the expiry window and returns each removed identity
    /// exactly once, so the caller reports one leave per expiry.
    pub fn sweep(&mut self, now: u64) -> (removed: Vec<u128>)
        requires
            old(self).wf(),
        ensures
            final(self).wf(),
            final(self)@ == swept_map(old(self)@, now),
            removed@.no_duplicates(),
            removed@.to_set() == swept_ids(old(self)@, now),
    {
        let ghost s0 = self.entries@;
        let n: usize = self.entries.len();
        let mut kept: Vec<(u128, u64)> = Vec::new();
        let mut removed: Vec<u128> = Vec::new();
        let mut i: usize = 0;
        while i < n
            invariant
                i <= n == s0.len(),
                s0 == self.entries@,
                key_distinct(s0),
                key_distinct(kept@),
                removed@.no_duplicates(),
                entry_covered(s0, kept@, removed@, now, i as int),
                kept_from(s0, kept@, now, i as int),
                removed_from(s0, removed@, now, i as int),
            decreases n - i,
        {
            let pair = self.entries[i];
            proof {
                assert(pair == s0[i as int]);
            }
            let expire_now = pair.1 < now && now - pair.1 > EXPIRY_MILLIS;
            proof {
                assert(expire_now == expired_spec(s0[i as int].1, now));
            }
            if expire_now {
                proof {
                    lemma_sweep_step_expired(s0, kept@, removed@, now, i as int);
                }
                removed.push(pair.0);
            } else {
                proof {
                    lemma_sweep_step_fresh(s0, kept@, removed@, now, i as int);
                }
                kept.push(pair);
            }
            i += 1;
        }
        self.entries = kept;
        proof {
            lemma_sweep_view(s0, self.entries@, removed@, now);
        }
        removed
    }
}

/// Every entry of `s0` below `bound` went to `removed` (if expired) or to
/// `kept` (if fresh).
spec fn entry_covered(
    s0: Seq<(u128, u64)>,
    kept: Seq<(u128, u64)>,
    removed: Seq<u128>,
    now: u64,
    bound: int,
) -> bool {
    forall|j: int|
        0 <= j < bound ==> (if expired_spec((#[trigger] s0[j]).1, now) {
            removed.contains(s0[j].0)
        } else {
            kept.contains(s0[j])
        })
}

/// `p` is a fresh entry of `s0` below `bound`.
spec fn kept_elem_ok(s0: Seq<(u128, u64)>, p: (u128, u64), now: u64, bound: int) -> bool {
    exists|j: int| 0 <= j < bound && p == #[trigger] s0[j] && !expired_spec(s0[j].1, now)
}

/// `x` is the key of an expired entry of `s0` below `bound`.
spec fn removed_elem_ok(s0: Seq<(u128, u64)>, x: u128, now: u64, bound: int) -> bool {
    exists|j: int| 0 <= j < bound && x == (#[trigger] s0[j]).0 && expired_spec(s0[j].1, now)
}

/// Every element of `kept` is a fresh entry of `s0` below `bound`.
spec fn kept_from(s0: Seq<(u128, u64)>, kept: Seq<(u128, u64)>, now: u64, bound: int) -> bool {
    forall|k: int| 0 <= k < kept.len() ==> kept_elem_ok(s0, #[trigger] kept[k], now, bound)
}

/// Every element of `removed` is the key of an expired entry of `s0`
/// below `bound`.
spec fn removed_from(s0: Seq<(u128, u64)>, removed: Seq<u128>, now: u64, bound: int) -> bool {
    forall|r: int| 0 <= r < removed.len() ==> removed_elem_ok(s0, #[trigger] removed[r], now, bound)
}

proof fn lemma_kept_elem_weaken(s0: Seq<(u128, u64)>, p: (u128, u64), now: u64, b1: int, b2: int)
    requires
        kept_elem_ok(s0, p, now, b1),
        b1 <= b2,
    ensures
        kept_elem_ok(s0, p, now, b2),
{
    let j = choose|j: int| 0 <= j < b1 && p == #[trigger] s0[j] && !expired_spec(s0[j].1, now);
    assert(0 <= j < b2 && p == s0[j] && !expired_spec(s0[j].1, now));
}

proof fn lemma_removed_elem_weaken(s0: Seq<(u128, u64)>, x: u128, now: u64, b1: int, b2: int)
    requires
        removed_elem_ok(s0, x, now, b1),
        b1 <= b2,
    ensures
        removed_elem_ok(s0, x, now, b2),
{
    let j = choose|j: int|
        0 <= j < b1 && x == (#[trigger] s0[j]).0 && expired_spec(s0[j].1, now);
    assert(0 <= j < b2 && x == s0[j].0 && expired_spec(s0[j].1, now));
}

/// One sweep step over an expired entry: pushing its key onto `removed`
/// re-establishes every loop fact at the next index.
proof fn lemma_sweep_step_expired(
    s0: Seq<(u128, u64)>,
    kept: Seq<(u128, u64)>,
    removed: Seq<u128>,
    now: u64,
    i: int,
)
    requires
        key_distinct(s0),
        0 <= i < s0.len(),
        removed.no_duplicates(),
        expired_spec(s0[i].1, now),
        entry_covered(s0, kept, removed, now, i),
        kept_from(s0, kept, now, i),
        removed_from(s0, removed, now, i),
    ensures
        removed.push(s0[i].0).no_duplicates(),
        entry_covered(s0, kept, removed.push(s0[i].0), now, i + 1),
        kept_from(s0, kept, now, i + 1),
        removed_from(s0, removed.push(s0[i].0), now, i + 1),
{
    broadcast use vstd::seq_lib::lemma_seq_contains_after_push;

    let removed1 = removed.push(s0[i].0);
    assert forall|r: int| 0 <= r < removed.len() implies removed[r] != s0[i].0 by {
        let j = choose|j: int|
            0 <= j < i && removed[r] == (#[trigger] s0[j]).0 && expired_spec(s0[j].1, now);
        assert(s0[j].0 != s0[i].0);
    }
    assert(removed1.no_duplicates()) by {
        assert forall|a: int, b: int|
            0 <= a < b < removed1.len() implies removed1[a] != removed1[b] by {
            if b < removed.len() {
                assert(removed[a] != removed[b]);
            } else {
                assert(removed1[b] == s0[i].0 && removed1[a] == removed[a]);
            }
        }
    }
    assert(entry_covered(s0, kept, removed1, now, i + 1)) by {
        assert forall|j: int| 0 <= j < i + 1 implies (if expired_spec(
            (#[trigger] s0[j]).1,
            now,
        ) {
            removed1.contains(s0[j].0)
        } else {
            kept.contains(s0[j])
        }) by {
            if j < i {
                if expired_spec(s0[j].1, now) {
                    assert(removed.contains(s0[j].0));
                }
            } else {
                assert(removed1[removed.len() as int] == s0[i].0);
            }
        }
    }
    assert(kept_from(s0, kept, now, i + 1)) by {
        assert forall|k: int| 0 <= k < kept.len() implies kept_elem_ok(
            s0,
            #[trigger] kept[k],
            now,
            i + 1,
        ) by {
            lemma_kept_elem_weaken(s0, kept[k], now, i, i + 1);
        }
    }
    assert(removed_from(s0, removed1, now, i + 1)) by {
        assert forall|r: int| 0 <= r < removed1.len() implies removed_elem_ok(
            s0,
            #[trigger] removed1[r],
            now,
            i + 1,
        ) by {
            if r < removed.len() {
                assert(removed1[r] == removed[r]);
                lemma_removed_elem_weaken(s0, removed[r], now, i, i + 1);
            } else {
                assert(removed1[r] == s0[i].0);
                assert(0 <= i < i + 1 && removed1[r] == s0[i].0 && expired_spec(s0[i].1, now));
            }
        }
    }
}

/// One sweep step over a fresh entry: pushing it onto `kept`
/// re-establishes every loop fact at the next index.
proof fn lemma_sweep_step_fresh(
    s0: Seq<(u128, u64)>,
    kept: Seq<(u128, u64)>,
    removed: Seq<u128>,
    now: u64,
    i: int,
)
    requires
        key_distinct(s0),
        0 <= i < s0.len(),
        key_distinct(kept),
        !expired_spec(s0[i].1, now),
        entry_covered(s0, kept, removed, now, i),
        kept_from(s0, kept, now, i),
        removed_from(s0, removed, now, i),
    ensures
        key_distinct(kept.push(s0[i])),
        entry_covered(s0, kept.push(s0[i]), removed, now, i + 1),
        kept_from(s0, kept.push(s0[i]), now, i + 1),
        removed_from(s0, removed, now, i + 1),
{
    broadcast use vstd::seq_lib::lemma_seq_contains_after_push;

    let kept1 = kept.push(s0[i]);
    assert forall|k: int| 0 <= k < kept.len() implies kept[k].0 != s0[i].0 by {
        let j = choose|j: int|
            0 <= j < i && kept[k] == #[trigger] s0[j] && !expired_spec(s0[j].1, now);
        assert(s0[j].0 != s0[i].0);
    }
    assert(key_distinct(kept1)) by {
        assert forall|a: int, b: int|
            0 <= a < b < kept1.len() implies (#[trigger] kept1[a]).0 != (#[trigger] kept1[b]).0 by {
            if b < kept.len() {
                assert(kept[a].0 != kept[b].0);
            } else {
                assert(kept1[b] == s0[i] && kept1[a] == kept[a]);
            }
        }
    }
    assert(entry_covered(s0, kept1, removed, now, i + 1)) by {
        assert forall|j: int| 0 <= j < i + 1 implies (if expired_spec(
            (#[trigger] s0[j]).1,
            now,
        ) {
            removed.contains(s0[j].0)
        } else {
            kept1.contains(s0[j])
        }) by {
            if j < i {
                if !expired_spec(s0[j].1, now) {
                    assert(kept.contains(s0[j]));
                }
            } else {
                assert(kept1[kept.len() as int] == s0[i]);
            }
        }
    }
    assert(kept_from(s0, kept1, now, i + 1)) by {
        assert forall|k: int| 0 <= k < kept1.len() implies kept_elem_ok(
            s0,
            #[trigger] kept1[k],
            now,
            i + 1,
        ) by {
            if k < kept.len() {
                assert(kept1[k] == kept[k]);
                lemma_kept_elem_weaken(s0, kept[k], now, i, i + 1);
            } else {
                assert(kept1[k] == s0[i]);
                assert(0 <= i < i + 1 && kept1[k] == s0[i] && !expired_spec(s0[i].1, now));
            }
        }
    }
    assert(removed_from(s0, removed, now, i + 1)) by {
        assert forall|r: int| 0 <= r < removed.len() implies removed_elem_ok(
            s0,
            #[trigger] removed[r],
            now,
            i + 1,
        ) by {
            lemma_removed_elem_weaken(s0, removed[r], now, i, i + 1);
        }
    }
}

proof fn lemma_map_of_update(s: Seq<(u128, u64)>, i: int, v: u64)
    requires
        key_distinct(s),
        0 <= i < s.len(),
    ensures
        map_of(s.update(i, (s[i].0, v))) == map_of(s).insert(s[i].0, v),
    decreases s.len(),
{
    let t = s.update(i, (s[i].0, v));
    if i == s.len() - 1 {
        assert(t.drop_last() =~= s.drop_last());
        assert(t.last() == (s[i].0, v));
        assert(map_of(t) == map_of(s.drop_last()).insert(s[i].0, v));
        assert(map_of(s.drop_last()).insert(s.last().0, s.last().1).insert(s[i].0, v) =~= map_of(
            s.drop_last(),
        ).insert(s[i].0, v));
    } else {
        assert(forall|a: int, b: int|
            0 <= a < b < s.drop_last().len() ==> (#[trigger] s.drop_last()[a]).0 != (
            #[trigger] s.drop_last()[b]).0) by {
            assert(forall|a: int| 0 <= a < s.drop_last().len() ==> s.drop_last()[a] == s[a]);
        }
        lemma_map_of_update(s.drop_last(), i, v);
        assert(t.drop_last() =~= s.drop_last().update(i, (s[i].0, v)));
        assert(t.last() == s.last());
        assert(s.drop_last()[i] == s[i]);
        assert(map_of(t) == map_of(s.drop_last()).insert(s[i].0, v).insert(s.last().0, s.last().1));
        assert(s[i].0 != s.last().0);
        assert(map_of(s.drop_last()).insert(s[i].0, v).insert(s.last().0, s.last().1) =~= map_of(
            s.drop_last(),
        ).insert(s.last().0, s.last().1).insert(s[i].0, v));
    }
}

/// Ties the sweep loop's element-level facts to the map-level contract.
proof fn lemma_sweep_view(s0: Seq<(u128, u64)>, kept: Seq<(u128, u64)>, removed: Seq<u128>, now: u64)
    requires
        key_distinct(s0),
        key_distinct(kept),
        entry_covered(s0, kept, removed, now, s0.len() as int),
        kept_from(s0, kept, now, s0.len() as int),
        removed_from(s0, removed, now, s0.len() as int),
    ensures
        map_of(kept) == swept_map(map_of(s0), now),
        removed.to_set() == swept_ids(map_of(s0), now),
{
    let m0 = map_of(s0);
    let mk = map_of(kept);
    assert forall|id: u128| #[trigger]
        mk.dom().contains(id) implies swept_map(m0, now).dom().contains(id) && mk[id] == swept_map(
        m0,
        now,
    )[id] by {
        lemma_map_of_contains(kept, id);
        let k = choose|k: int| 0 <= k < kept.len() && (#[trigger] kept[k]).0 == id;
        lemma_map_of_index(kept, k);
        assert(kept_elem_ok(s0, kept[k], now, s0.len() as int));
        let j = choose|j: int|
            0 <= j < s0.len() && kept[k] == #[trigger] s0[j] && !expired_spec(s0[j].1, now);
        lemma_map_of_index(s0, j);
    }
    assert forall|id: u128| #[trigger]
        swept_map(m0, now).dom().contains(id) implies mk.dom().contains(id) by {
        lemma_map_of_contains(s0, id);
        let j = choose|j: int| 0 <= j < s0.len() && (#[trigger] s0[j]).0 == id;
        lemma_map_of_index(s0, j);
        assert(kept.contains(s0[j]));
        let k = choose|k: int| 0 <= k < kept.len() && kept[k] == s0[j];
        lemma_map_of_index(kept, k);
    }
    assert(mk =~= swept_map(m0, now));
    assert forall|id: u128| #[trigger]
        removed.to_set().contains(id) implies swept_ids(m0, now).contains(id) by {
        let r = choose|r: int| 0 <= r < removed.len() && removed[r] == id;
        assert(removed_elem_ok(s0, removed[r], now, s0.len() as int));
        let j = choose|j: int|
            0 <= j < s0.len() && removed[r] == (#[trigger] s0[j]).0 && expired_spec(s0[j].1, now);
        lemma_map_of_index(s0, j);
    }
    assert forall|id: u128| #[trigger]
        swept_ids(m0, now).contains(id) implies removed.to_set().contains(id) by {
        lemma_map_of_contains(s0, id);
        let j = choose|j: int| 0 <= j < s0.len() && (#[trigger] s0[j]).0 == id;
        lemma_map_of_index(s0, j);
        assert(removed.contains(s0[j].0));
    }
    assert(removed.to_set() =~= swept_ids(m0, now));
}

/// Law: an identity seen within the expiry window is never reported as
/// having left — the sweep keeps it, with its instant untouched.
pub proof fn lemma_fresh_identity_stays(m: Map<u128, u64>, id: u128, now: u64)
    requires
        m.dom().contains(id),
        now <= m[id] + EXPIRY_MILLIS,
    ensures
        swept_map(m, now).dom().contains(id),
        swept_map(m, now)[id] == m[id],
        !swept_ids(m, now).contains(id),
{
}

/// Law: a sighting followed by a sweep within the expiry window keeps the
/// identity — however often this repeats, an identity refreshed at least
/// every window is never reported as having left.
pub proof fn lemma_note_seen_then_sweep_keeps(m: Map<u128, u64>, id: u128, t: u64, now: u64)
    requires
        now <= t + EXPIRY_MILLIS,
    ensures
        swept_map(m.insert(id, t), now).dom().contains(id),
        swept_map(m.insert(id, t), now)[id] == t,
        !swept_ids(m.insert(id, t), now).contains(id),
{
}

/// Law: an identity silent for longer than the expiry window is removed
/// by the next sweep and reported exactly once — it is gone from the swept
/// map, so no later sweep can report it again.
pub proof fn lemma_stale_identity_swept_once(m: Map<u128, u64>, id: u128, now: u64, later: u64)
    requires
        m.dom().contains(id),
        now > m[id] + EXPIRY_MILLIS,
    ensures
        swept_ids(m, now).contains(id),
        !swept_map(m, now).dom().contains(id),
        !swept_ids(swept_map(m, now), later).contains(id),
{
}

/// Law: an identity that reappears after expiry is a fresh join — the
/// swept map no longer holds it, so the next sighting reports joining
/// (`note_seen` returns the join flag exactly when the identity is absent).
pub proof fn lemma_rejoin_after_expiry(m: Map<u128, u64>, id: u128, now: u64, t: u64)
    requires
        m.dom().contains(id),
        now > m[id] + EXPIRY_MILLIS,
    ensures
        !swept_map(m, now).dom().contains(id),
        swept_map(m, now).insert(id, t).dom().contains(id),
        swept_map(m, now).insert(id, t)[id] == t,
{
}

/// Law: refreshing an identity with a monotonic clock never moves its
/// last-seen instant backwards.
pub proof fn lemma_refresh_monotonic(m: Map<u128, u64>, id: u128, now: u64)
    requires
        m.dom().contains(id) ==> m[id] <= now,
    ensures
        m.insert(id, now)[id] == now,
        m.dom().contains(id) ==> m[id] <= m.insert(id, now)[id],
{
}

/// What a saturating add yields.
pub open spec fn sat_add(a: u64, b: u64) -> u64 {
    if a + b > u64::MAX {
        u64::MAX
    } else {
        (a + b) as u64
    }
}

/// The served-bytes counter: request handling accumulates response sizes,
/// and a periodic task drains the count once per interval, tracking the
/// largest count any single interval has seen.
pub struct ByteCounter {
    pub current: u64,
    pub max_per_interval: u64,
}

impl ByteCounter {
    /// A zeroed counter.
    pub fn new() -> (c: Self)
        ensures
            c.current == 0,
            c.max_per_interval == 0,
    {
        ByteCounter { current: 0, max_per_interval: 0 }
    }

    /// Accumulates one response's byte count, saturating at the top.
    pub fn add(&mut self, n: u64)
        ensures
            final(self).current == sat_add(old(self).current, n),
            final(self).max_per_interval == old(self).max_per_interval,
    {
        if self.current <= u64::MAX - n {
            self.current = self.current + n;
        } else {
            self.current = u64::MAX;
        }
    }

    /// Ends one interval: returns the bytes served during it, resets the
    /// count, and remembers the interval maximum.
    pub fn drain(&mut self) -> (served: u64)
        ensures
            served == old(self).current,
            final(self).current == 0,
            final(self).max_per_interval == if old(self).current > old(self).max_per_interval {
                old(self).current
            } else {
                old(self).max_per_interval
            },
    {
        let served = self.current;
        self.current = 0;
        if served > self.max_per_interval {
            self.max_per_interval = served;
        }
        served
    }
}

} // verus!
