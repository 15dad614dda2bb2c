//! The volume facade, its snapshot cache, and the retention policy engine.

use vstd::prelude::*;

use crate::calendar;
use crate::configure;
use crate::zfs::snapshot::{
    all_names_valid, classify_middle, classify_old, classify_young, days_limit, hours_limit,
    snapshot_name_valid, snapshot_time, Generation, Snapshot,
};

verus! {

/// One day, in seconds of the linear timestamp scale.
pub const DAY_SECONDS: i64 = 86400;

/// One week, in seconds of the linear timestamp scale.
pub const WEEK_SECONDS: i64 = 604800;

/// The running threshold of the thinning sweep after it has processed `s`:
/// the earliest creation time the next snapshot must reach to be kept.  It
/// starts at the bottom of the timestamp scale, so the first snapshot is
/// always kept.
pub open spec fn sweep_threshold(s: Seq<Snapshot>, interval: int) -> int
    decreases s.len(),
{
    if s.len() == 0 {
        0
    } else {
        let th = sweep_threshold(s.drop_last(), interval);
        if snapshot_time(s.last()) >= th {
            snapshot_time(s.last()) + interval
        } else {
            th
        }
    }
}

/// The snapshots the thinning sweep rejects, in input order.
pub open spec fn sweep_rejects(s: Seq<Snapshot>, interval: int) -> Seq<Snapshot>
    decreases s.len(),
{
    if s.len() == 0 {
        s
    } else {
        let r = sweep_rejects(s.drop_last(), interval);
        if snapshot_time(s.last()) >= sweep_threshold(s.drop_last(), interval) {
            r
        } else {
            r.push(s.last())
        }
    }
}

/// The snapshots the thinning sweep keeps, in input order.
pub open spec fn sweep_kept(s: Seq<Snapshot>, interval: int) -> Seq<Snapshot>
    decreases s.len(),
{
    if s.len() == 0 {
        s
    } else {
        let r = sweep_kept(s.drop_last(), interval);
        if snapshot_time(s.last()) >= sweep_threshold(s.drop_last(), interval) {
            r.push(s.last())
        } else {
            r
        }
    }
}

/// The thinning sweep never invents a snapshot, keeps at least one snapshot
/// of a non-empty history, and spaces what it keeps at least `interval`
/// seconds apart.  The running threshold always sits one `interval` past the
/// last kept snapshot.
pub proof fn lemma_sweep_kept_spacing(s: Seq<Snapshot>, interval: int)
    requires
        interval >= 0,
        all_names_valid(s),
    ensures
        s.len() > 0 ==> sweep_kept(s, interval).len() > 0,
        forall|x: Snapshot| sweep_kept(s, interval).contains(x) ==> s.contains(x),
        forall|i: int|
            0 <= i < sweep_kept(s, interval).len() - 1 ==> snapshot_time(
                #[trigger] sweep_kept(s, interval)[i],
            ) + interval <= snapshot_time(sweep_kept(s, interval)[i + 1]),
        sweep_kept(s, interval).len() > 0 ==> sweep_threshold(s, interval) == snapshot_time(
            sweep_kept(s, interval).last(),
        ) + interval,
        sweep_kept(s, interval).len() == 0 ==> sweep_threshold(s, interval) == 0,
    decreases s.len(),
{
    if s.len() > 0 {
        let s0 = s.drop_last();
        let x = s.last();
        assert(all_names_valid(s0)) by {
            assert(forall|i: int| 0 <= i < s0.len() ==> #[trigger] s0[i] == s[i]);
        }
        lemma_sweep_kept_spacing(s0, interval);
        crate::zfs::snapshot::lemma_created_at_range(x@);
        let kept0 = sweep_kept(s0, interval);
        let kept = sweep_kept(s, interval);
        assert(forall|y: Snapshot| s0.contains(y) ==> s.contains(y)) by {
            assert(forall|i: int| 0 <= i < s0.len() ==> #[trigger] s0[i] == s[i]);
        }
        assert(s.contains(x)) by {
            assert(s[s.len() - 1] == x);
        }
        if snapshot_time(x) >= sweep_threshold(s0, interval) {
            assert(kept == kept0.push(x));
            assert(forall|y: Snapshot| kept.contains(y) ==> kept0.contains(y) || y == x);
            if kept0.len() > 0 {
                assert(kept[kept.len() - 2] == kept0.last());
            }
            assert(forall|i: int|
                0 <= i < kept.len() - 1 ==> snapshot_time(#[trigger] kept[i]) + interval
                    <= snapshot_time(kept[i + 1])) by {
                assert(forall|i: int| 0 <= i < kept0.len() ==> #[trigger] kept[i] == kept0[i]);
            }
        } else {
            assert(kept == kept0);
        }
    }
}

/// The count cap rejects exactly the earliest snapshots past the keep-limit,
/// keeps exactly the latest `min(len, n)`, and loses nothing.
pub proof fn lemma_count_cap(s: Seq<Snapshot>, n: int)
    requires
        n >= 0,
    ensures
        cap_rejects(s, n).len() == if s.len() <= n {
            0int
        } else {
            s.len() - n
        },
        cap_kept(s, n).len() == if s.len() <= n {
            s.len() as int
        } else {
            n
        },
        forall|i: int| 0 <= i < cap_rejects(s, n).len() ==> #[trigger] cap_rejects(s, n)[i] == s[i],
        forall|i: int|
            0 <= i < cap_kept(s, n).len() ==> #[trigger] cap_kept(s, n)[i] == s[
                s.len() - cap_kept(s, n).len() + i
            ],
        cap_rejects(s, n) + cap_kept(s, n) == s,
{
    assert(cap_rejects(s, n) + cap_kept(s, n) =~= s);
}

/// The snapshots the count cap rejects: the earliest `len - n` when the
/// sequence exceeds `n`, none otherwise.
pub open spec fn cap_rejects(s: Seq<Snapshot>, n: int) -> Seq<Snapshot> {
    if s.len() <= n {
        Seq::empty()
    } else {
        s.subrange(0, s.len() - n)
    }
}

/// The snapshots the count cap keeps: the latest `min(len, n)`.
pub open spec fn cap_kept(s: Seq<Snapshot>, n: int) -> Seq<Snapshot> {
    if s.len() <= n {
        s
    } else {
        s.subrange(s.len() - n, s.len() as int)
    }
}

/// Everything one purge pass destroys: the middle band thinned to one per
/// day, the old band thinned to one per week, and the surviving old band
/// capped by count.
pub open spec fn purge_rejects(s: Seq<Snapshot>, now: int) -> Seq<Snapshot> {
    let middle = classify_middle(s, hours_limit(now), days_limit(now));
    let old = classify_old(s, days_limit(now));
    sweep_rejects(middle, DAY_SECONDS as int) + sweep_rejects(old, WEEK_SECONDS as int)
        + cap_rejects(
        sweep_kept(old, WEEK_SECONDS as int),
        configure::SNAPSHOT_KEEP_WEEKS as int,
    )
}

/// Band selection keeps names well-formed and never grows the list.
pub proof fn lemma_classify_valid(s: Seq<Snapshot>, hl: int, dl: int)
    requires
        all_names_valid(s),
    ensures
        all_names_valid(classify_young(s, hl)),
        all_names_valid(classify_middle(s, hl, dl)),
        all_names_valid(classify_old(s, dl)),
        classify_young(s, hl).len() <= s.len(),
        classify_middle(s, hl, dl).len() <= s.len(),
        classify_old(s, dl).len() <= s.len(),
    decreases s.len(),
{
    if s.len() > 0 {
        assert(all_names_valid(s.drop_last())) by {
            assert(forall|i: int|
                0 <= i < s.len() - 1 ==> #[trigger] s.drop_last()[i] == s[i]);
        }
        lemma_classify_valid(s.drop_last(), hl, dl);
    }
}

/// The thinning sweep keeps names well-formed and never grows the list.
pub proof fn lemma_sweep_valid(s: Seq<Snapshot>, interval: int)
    requires
        all_names_valid(s),
    ensures
        all_names_valid(sweep_kept(s, interval)),
        all_names_valid(sweep_rejects(s, interval)),
        sweep_kept(s, interval).len() <= s.len(),
        sweep_rejects(s, interval).len() <= s.len(),
    decreases s.len(),
{
    if s.len() > 0 {
        assert(all_names_valid(s.drop_last())) by {
            assert(forall|i: int|
                0 <= i < s.len() - 1 ==> #[trigger] s.drop_last()[i] == s[i]);
        }
        lemma_sweep_valid(s.drop_last(), interval);
    }
}

/// The ordered snapshot history of one volume, and the retention sweeps that
/// prune it.
#[derive(Debug)]
pub struct SnapshotCollector {
    pub filesystem: String,
    pub snapshots: Vec<Snapshot>,
}

/// The names of a list of snapshots.
pub open spec fn names_of(s: Seq<Snapshot>) -> Seq<Seq<char>> {
    s.map_values(|x: Snapshot| x@)
}

impl SnapshotCollector {
    /// Collect, from the cache, the snapshots that belong to `filesystem`.
    #[verifier::loop_isolation(false)]
    pub fn new(filesystem: &str, controller: &FilesystemController) -> (c: SnapshotCollector)
        ensures
            c.filesystem@ == filesystem@,
            names_of(c.snapshots@) == volume_snapshot_names(
                string_views(controller.attribute.snapshots@),
                filesystem@,
            ),
    {
        let snapshot_names: Vec<String> = controller.get_snapshots(filesystem);
        let mut snapshots: Vec<Snapshot> = Vec::new();
        let mut i: usize = 0;
        while i < snapshot_names.len()
            invariant
                i <= snapshot_names@.len(),
                snapshots@.len() == i,
                forall|k: int| 0 <= k < i ==> (#[trigger] snapshots@[k])@ == snapshot_names@[k]@,
            decreases snapshot_names@.len() - i,
        {
            snapshots.push(Snapshot::new(snapshot_names[i].as_str()));
            i = i + 1;
        }
        proof {
            assert(names_of(snapshots@) =~= string_views(snapshot_names@));
        }
        SnapshotCollector { filesystem: filesystem.to_owned(), snapshots }
    }

    /// A copy of the collected snapshot list.
    #[verifier::loop_isolation(false)]
    pub fn snapshots(&self) -> (r: Vec<Snapshot>)
        ensures
            r@ == self.snapshots@,
    {
        let mut r: Vec<Snapshot> = Vec::new();
        let mut i: usize = 0;
        while i < self.snapshots.len()
            invariant
                i <= self.snapshots@.len(),
                r@ == self.snapshots@.subrange(0, i as int),
            decreases self.snapshots@.len() - i,
        {
            r.push(self.snapshots[i].duplicate());
            proof {
                assert(self.snapshots@.subrange(0, i as int + 1) =~= self.snapshots@.subrange(
                    0,
                    i as int,
                ).push(self.snapshots@[i as int]));
            }
            i = i + 1;
        }
        proof {
            assert(self.snapshots@.subrange(0, self.snapshots@.len() as int) =~= self.snapshots@);
        }
        r
    }

    /// Take one snapshot now: name it after this volume and the current local
    /// time, record it in the cache and in this collector, and hand it back
    /// so the caller can create it on the storage system.
    pub fn take(&mut self, controller: &mut FilesystemController) -> (snapshot: Snapshot)
        ensures
            final(self).filesystem == old(self).filesystem,
            snapshot_name_valid(snapshot),
            snapshot@.len() == old(self).filesystem@.len() + 26,
            snapshot@.subrange(0, old(self).filesystem@.len() as int) == old(self).filesystem@,
            snapshot@[old(self).filesystem@.len() as int] == '@',
            final(self).snapshots@ == old(self).snapshots@.push(snapshot),
            final(controller).attribute.filesystems == old(controller).attribute.filesystems,
            string_views(final(controller).attribute.snapshots@) == string_views(
                old(controller).attribute.snapshots@,
            ).push(snapshot@),
    {
        let filesystem: String = Snapshot::generate_name(self.filesystem.as_str());
        controller.add_snapshot(filesystem.as_str());
        let snapshot: Snapshot = Snapshot::new(filesystem.as_str());
        self.snapshots.push(snapshot.duplicate());
        snapshot
    }

    /// The rejects of the thinning sweep: every snapshot that follows a kept
    /// one within `interval` seconds.
    #[verifier::loop_isolation(false)]
    pub fn find_frequent_snapshot(&self, snapshots: &Vec<Snapshot>, interval: i64) -> (destroys:
        Vec<Snapshot>)
        requires
            all_names_valid(snapshots@),
            0 <= interval,
            interval + 8030 * 366 * 86400 <= i64::MAX,
        ensures
            destroys@ == sweep_rejects(snapshots@, interval as int),
    {
        proof {
            calendar::lemma_max_timestamp_bound();
        }
        let mut base: i64 = 0;
        let mut destroys: Vec<Snapshot> = Vec::new();
        let mut i: usize = 0;
        while i < snapshots.len()
            invariant
                i <= snapshots.len(),
                0 <= base <= 8030 * 366 * 86400 + interval,
                base == sweep_threshold(snapshots@.subrange(0, i as int), interval as int),
                destroys@ == sweep_rejects(snapshots@.subrange(0, i as int), interval as int),
            decreases snapshots.len() - i,
        {
            let snap: &Snapshot = &snapshots[i];
            let dt: i64 = snap.get_datetime();
            proof {
                assert(snapshots@.subrange(0, i as int + 1).drop_last() =~= snapshots@.subrange(
                    0,
                    i as int,
                ));
                assert(snapshots@.subrange(0, i as int + 1).last() == snapshots@[i as int]);
            }
            if dt >= base {
                base = dt + interval;
            } else {
                destroys.push(snap.duplicate());
            }
            i = i + 1;
        }
        proof {
            assert(snapshots@.subrange(0, snapshots@.len() as int) =~= snapshots@);
        }
        destroys
    }

    /// The snapshots the thinning sweep keeps: the anchors spaced at least
    /// `interval` seconds apart.
    #[verifier::loop_isolation(false)]
    pub fn find_surviving_snapshot(&self, snapshots: &Vec<Snapshot>, interval: i64) -> (kept: Vec<
        Snapshot,
    >)
        requires
            all_names_valid(snapshots@),
            0 <= interval,
            interval + 8030 * 366 * 86400 <= i64::MAX,
        ensures
            kept@ == sweep_kept(snapshots@, interval as int),
    {
        proof {
            calendar::lemma_max_timestamp_bound();
        }
        let mut base: i64 = 0;
        let mut kept: Vec<Snapshot> = Vec::new();
        let mut i: usize = 0;
        while i < snapshots.len()
            invariant
                i <= snapshots.len(),
                0 <= base <= 8030 * 366 * 86400 + interval,
                base == sweep_threshold(snapshots@.subrange(0, i as int), interval as int),
                kept@ == sweep_kept(snapshots@.subrange(0, i as int), interval as int),
            decreases snapshots.len() - i,
        {
            let snap: &Snapshot = &snapshots[i];
            let dt: i64 = snap.get_datetime();
            proof {
                assert(snapshots@.subrange(0, i as int + 1).drop_last() =~= snapshots@.subrange(
                    0,
                    i as int,
                ));
                assert(snapshots@.subrange(0, i as int + 1).last() == snapshots@[i as int]);
            }
            if dt >= base {
                base = dt + interval;
                kept.push(snap.duplicate());
            }
            i = i + 1;
        }
        proof {
            assert(snapshots@.subrange(0, snapshots@.len() as int) =~= snapshots@);
        }
        kept
    }

    /// The rejects of the count cap: the earliest snapshots past the
    /// keep-limit `number`, oldest first.
    #[verifier::loop_isolation(false)]
    pub fn find_oldest_snapshot(&self, snapshots: &Vec<Snapshot>, number: i32) -> (destroys: Vec<
        Snapshot,
    >)
        requires
            number >= 0,
            snapshots@.len() <= 0x7fff_ffff,
        ensures
            destroys@ == cap_rejects(snapshots@, number as int),
    {
        let mut destroys: Vec<Snapshot> = Vec::new();
        let count_i32: i32 = snapshots.len() as i32 - number;
        if count_i32 <= 0 {
            return destroys;
        }
        let count: usize = count_i32 as usize;
        let mut index: usize = 0;
        while index < count
            invariant
                index <= count,
                count == snapshots@.len() - number,
                destroys@ == snapshots@.subrange(0, index as int),
            decreases count - index,
        {
            let snapshot: Snapshot = snapshots[index].duplicate();
            destroys.push(snapshot);
            proof {
                assert(snapshots@.subrange(0, index as int + 1) =~= snapshots@.subrange(
                    0,
                    index as int,
                ).push(snapshots@[index as int]));
            }
            index = index + 1;
        }
        destroys
    }

    /// Decide one purge pass over this volume's history at instant `now`:
    /// classify into bands, thin the middle band daily, thin the old band
    /// weekly, and cap the surviving old band by count.
    pub fn purge(&self, now: i64) -> (destroys: Vec<Snapshot>)
        requires
            all_names_valid(self.snapshots@),
            calendar::valid_timestamp(now as int),
            self.snapshots@.len() <= 0x7fff_ffff,
        ensures
            destroys@ == purge_rejects(self.snapshots@, now as int),
    {
        let generation: Generation = Snapshot::generation(&self.snapshots, now);
        proof {
            lemma_classify_valid(
                self.snapshots@,
                hours_limit(now as int),
                days_limit(now as int),
            );
            lemma_sweep_valid(classify_old(self.snapshots@, days_limit(now as int)), WEEK_SECONDS as int);
        }
        let mut destroys: Vec<Snapshot> = Vec::new();

        let mut middles: Vec<Snapshot> = self.find_frequent_snapshot(&generation.middle, DAY_SECONDS);
        destroys.append(&mut middles);

        let mut olds: Vec<Snapshot> = self.find_frequent_snapshot(&generation.old, WEEK_SECONDS);
        destroys.append(&mut olds);

        let survivors: Vec<Snapshot> = self.find_surviving_snapshot(&generation.old, WEEK_SECONDS);
        let mut oldests: Vec<Snapshot> = self.find_oldest_snapshot(
            &survivors,
            configure::SNAPSHOT_KEEP_WEEKS,
        );
        destroys.append(&mut oldests);
        destroys
    }
}

/// Band selection distributes over concatenation.
pub proof fn lemma_classify_concat(a: Seq<Snapshot>, b: Seq<Snapshot>, hl: int, dl: int)
    ensures
        classify_young(a + b, hl) == classify_young(a, hl) + classify_young(b, hl),
        classify_middle(a + b, hl, dl) == classify_middle(a, hl, dl) + classify_middle(b, hl, dl),
        classify_old(a + b, dl) == classify_old(a, dl) + classify_old(b, dl),
    decreases b.len(),
{
    if b.len() == 0 {
        assert(a + b =~= a);
        assert(classify_young(a, hl) + classify_young(b, hl) =~= classify_young(a, hl));
        assert(classify_middle(a, hl, dl) + classify_middle(b, hl, dl) =~= classify_middle(
            a,
            hl,
            dl,
        ));
        assert(classify_old(a, dl) + classify_old(b, dl) =~= classify_old(a, dl));
    } else {
        lemma_classify_concat(a, b.drop_last(), hl, dl);
        assert((a + b).drop_last() =~= a + b.drop_last());
        assert((a + b).last() == b.last());
        assert(classify_young(a + b, hl) =~= classify_young(a, hl) + classify_young(b, hl));
        assert(classify_middle(a + b, hl, dl) =~= classify_middle(a, hl, dl) + classify_middle(
            b,
            hl,
            dl,
        ));
        assert(classify_old(a + b, dl) =~= classify_old(a, dl) + classify_old(b, dl));
    }
}

/// Every snapshot a band holds satisfies that band's age test.
pub proof fn lemma_classify_elements(s: Seq<Snapshot>, hl: int, dl: int)
    ensures
        forall|i: int|
            0 <= i < classify_young(s, hl).len() ==> snapshot_time(
                #[trigger] classify_young(s, hl)[i],
            ) < hl,
        forall|i: int|
            0 <= i < classify_middle(s, hl, dl).len() ==> hl <= snapshot_time(
                #[trigger] classify_middle(s, hl, dl)[i],
            ) < dl,
        forall|i: int|
            0 <= i < classify_old(s, dl).len() ==> snapshot_time(#[trigger] classify_old(s, dl)[i])
                >= dl,
    decreases s.len(),
{
    if s.len() > 0 {
        lemma_classify_elements(s.drop_last(), hl, dl);
        let s0 = s.drop_last();
        let x = s.last();
        let y0 = classify_young(s0, hl);
        let m0 = classify_middle(s0, hl, dl);
        let o0 = classify_old(s0, dl);
        assert forall|i: int|
            0 <= i < classify_young(s, hl).len() implies snapshot_time(
            #[trigger] classify_young(s, hl)[i],
        ) < hl by {
            if i < y0.len() {
                assert(classify_young(s, hl)[i] == y0[i]);
            } else {
                assert(classify_young(s, hl)[i] == x);
            }
        }
        assert forall|i: int|
            0 <= i < classify_middle(s, hl, dl).len() implies hl <= snapshot_time(
            #[trigger] classify_middle(s, hl, dl)[i],
        ) < dl by {
            if i < m0.len() {
                assert(classify_middle(s, hl, dl)[i] == m0[i]);
            } else {
                assert(classify_middle(s, hl, dl)[i] == x);
            }
        }
        assert forall|i: int|
            0 <= i < classify_old(s, dl).len() implies snapshot_time(
            #[trigger] classify_old(s, dl)[i],
        ) >= dl by {
            if i < o0.len() {
                assert(classify_old(s, dl)[i] == o0[i]);
            } else {
                assert(classify_old(s, dl)[i] == x);
            }
        }
    }
}

/// A list of only-young snapshots classifies as all young.
pub proof fn lemma_classify_of_young(s: Seq<Snapshot>, hl: int, dl: int)
    requires
        hl <= dl,
        forall|i: int| 0 <= i < s.len() ==> snapshot_time(#[trigger] s[i]) < hl,
    ensures
        classify_young(s, hl) == s,
        classify_middle(s, hl, dl) == Seq::<Snapshot>::empty(),
        classify_old(s, dl) == Seq::<Snapshot>::empty(),
    decreases s.len(),
{
    if s.len() == 0 {
        assert(classify_young(s, hl) =~= s);
    } else {
        assert(forall|i: int| 0 <= i < s.len() - 1 ==> #[trigger] s.drop_last()[i] == s[i]);
        lemma_classify_of_young(s.drop_last(), hl, dl);
        assert(classify_young(s, hl) =~= s);
    }
}

/// A list of only-middle snapshots classifies as all middle.
pub proof fn lemma_classify_of_middle(s: Seq<Snapshot>, hl: int, dl: int)
    requires
        forall|i: int|
            hl <= snapshot_time(#[trigger] s[i]) < dl || !(0 <= i < s.len()),
    ensures
        classify_young(s, hl) == Seq::<Snapshot>::empty(),
        classify_middle(s, hl, dl) == s,
        classify_old(s, dl) == Seq::<Snapshot>::empty(),
    decreases s.len(),
{
    if s.len() == 0 {
        assert(classify_middle(s, hl, dl) =~= s);
    } else {
        assert(forall|i: int| 0 <= i < s.len() - 1 ==> #[trigger] s.drop_last()[i] == s[i]);
        lemma_classify_of_middle(s.drop_last(), hl, dl);
        assert(classify_middle(s, hl, dl) =~= s);
    }
}

/// A list of only-old snapshots classifies as all old.
pub proof fn lemma_classify_of_old(s: Seq<Snapshot>, hl: int, dl: int)
    requires
        hl <= dl,
        forall|i: int| 0 <= i < s.len() ==> snapshot_time(#[trigger] s[i]) >= dl,
    ensures
        classify_young(s, hl) == Seq::<Snapshot>::empty(),
        classify_middle(s, hl, dl) == Seq::<Snapshot>::empty(),
        classify_old(s, dl) == s,
    decreases s.len(),
{
    if s.len() == 0 {
        assert(classify_old(s, dl) =~= s);
    } else {
        assert(forall|i: int| 0 <= i < s.len() - 1 ==> #[trigger] s.drop_last()[i] == s[i]);
        lemma_classify_of_old(s.drop_last(), hl, dl);
        assert(classify_old(s, dl) =~= s);
    }
}

/// Sweeping a list whose snapshots already lie at least `interval` apart
/// keeps everything and rejects nothing.
pub proof fn lemma_sweep_of_spaced(s: Seq<Snapshot>, interval: int)
    requires
        interval >= 0,
        forall|i: int| 0 <= i < s.len() ==> snapshot_time(#[trigger] s[i]) >= 0,
        forall|i: int|
            0 <= i < s.len() - 1 ==> snapshot_time(#[trigger] s[i]) + interval <= snapshot_time(
                s[i + 1],
            ),
    ensures
        sweep_kept(s, interval) == s,
        sweep_rejects(s, interval) == Seq::<Snapshot>::empty(),
        sweep_threshold(s, interval) == if s.len() == 0 {
            0int
        } else {
            snapshot_time(s.last()) + interval
        },
    decreases s.len(),
{
    if s.len() == 0 {
        assert(sweep_rejects(s, interval) =~= Seq::<Snapshot>::empty());
    } else {
        let s0 = s.drop_last();
        assert(forall|i: int| 0 <= i < s0.len() ==> #[trigger] s0[i] == s[i]);
        lemma_sweep_of_spaced(s0, interval);
        if s0.len() > 0 {
            assert(snapshot_time(s[s.len() - 2]) + interval <= snapshot_time(s[s.len() - 1]));
        }
        assert(sweep_kept(s, interval) =~= s);
    }
}

/// Everything one purge pass keeps: the whole young band, the thinned middle
/// band, and the thinned old band capped by count.
pub open spec fn purge_survivors(s: Seq<Snapshot>, now: int) -> Seq<Snapshot> {
    classify_young(s, hours_limit(now)) + sweep_kept(
        classify_middle(s, hours_limit(now), days_limit(now)),
        DAY_SECONDS as int,
    ) + cap_kept(
        sweep_kept(classify_old(s, days_limit(now)), WEEK_SECONDS as int),
        configure::SNAPSHOT_KEEP_WEEKS as int,
    )
}

/// A purge pass neither loses nor duplicates snapshots: the rejects and the
/// survivors together hold exactly the input count.
pub proof fn lemma_purge_partition(s: Seq<Snapshot>, now: int)
    ensures
        purge_rejects(s, now).len() + purge_survivors(s, now).len() == s.len(),
    decreases s.len(),
{
    let hl = hours_limit(now);
    let dl = days_limit(now);
    lemma_generation_partitions_len(s, hl, dl);
    lemma_sweep_partition_len(classify_middle(s, hl, dl), DAY_SECONDS as int);
    lemma_sweep_partition_len(classify_old(s, dl), WEEK_SECONDS as int);
}

/// The sweep's kept and rejected lists together hold exactly the input count.
pub proof fn lemma_sweep_partition_len(s: Seq<Snapshot>, interval: int)
    ensures
        sweep_kept(s, interval).len() + sweep_rejects(s, interval).len() == s.len(),
    decreases s.len(),
{
    if s.len() > 0 {
        lemma_sweep_partition_len(s.drop_last(), interval);
    }
}

proof fn lemma_generation_partitions_len(s: Seq<Snapshot>, hl: int, dl: int)
    requires
        hl <= dl,
    ensures
        classify_young(s, hl).len() + classify_middle(s, hl, dl).len() + classify_old(s, dl).len()
            == s.len(),
    decreases s.len(),
{
    crate::zfs::snapshot::lemma_generation_partitions(s, hl, dl);
}

/// Purging is idempotent: a second purge pass over the survivors of a first
/// one, at the same instant, destroys nothing, because the survivors already
/// satisfy the spacing and count invariants of every band.
#[verifier::rlimit(100)]
pub proof fn lemma_purge_idempotent(s: Seq<Snapshot>, now: int)
    requires
        all_names_valid(s),
    ensures
        purge_rejects(purge_survivors(s, now), now) == Seq::<Snapshot>::empty(),
{
    let hl = hours_limit(now);
    let dl = days_limit(now);
    let day = DAY_SECONDS as int;
    let week = WEEK_SECONDS as int;
    let cap = configure::SNAPSHOT_KEEP_WEEKS as int;
    let young = classify_young(s, hl);
    let middle = classify_middle(s, hl, dl);
    let old = classify_old(s, dl);
    let midk = sweep_kept(middle, day);
    let oldk = sweep_kept(old, week);
    let oldk2 = cap_kept(oldk, cap);
    let sv = purge_survivors(s, now);

    lemma_classify_valid(s, hl, dl);
    lemma_sweep_valid(middle, day);
    lemma_sweep_valid(old, week);
    lemma_classify_elements(s, hl, dl);
    lemma_sweep_kept_spacing(middle, day);
    lemma_sweep_kept_spacing(old, week);
    lemma_count_cap(oldk, cap);

    // every survivor of the middle band still tests middle, and its
    // timestamp is representable
    assert forall|i: int|
        0 <= i < midk.len() implies hl <= snapshot_time(#[trigger] midk[i]) < dl && snapshot_time(
        midk[i],
    ) >= 0 by {
        assert(midk.contains(midk[i]));
        assert(middle.contains(midk[i]));
        let j = choose|j: int| 0 <= j < middle.len() && middle[j] == midk[i];
        assert(hl <= snapshot_time(middle[j]) < dl);
        assert(all_names_valid(midk));
        crate::zfs::snapshot::lemma_created_at_range(midk[i]@);
    }
    // likewise for the capped old band
    assert forall|i: int|
        0 <= i < oldk2.len() implies snapshot_time(#[trigger] oldk2[i]) >= dl && snapshot_time(
        oldk2[i],
    ) >= 0 by {
        assert(oldk2[i] == oldk[oldk.len() - oldk2.len() + i]);
        let k = oldk.len() - oldk2.len() + i;
        assert(oldk.contains(oldk[k]));
        assert(old.contains(oldk[k]));
        let j = choose|j: int| 0 <= j < old.len() && old[j] == oldk[k];
        assert(snapshot_time(old[j]) >= dl);
        assert(all_names_valid(oldk));
        crate::zfs::snapshot::lemma_created_at_range(oldk2[i]@);
    }
    // the capped old band keeps the weekly spacing
    assert forall|i: int|
        0 <= i < oldk2.len() - 1 implies snapshot_time(#[trigger] oldk2[i]) + week <= snapshot_time(
        oldk2[i + 1],
    ) by {
        let k = oldk.len() - oldk2.len();
        assert(oldk2[i] == oldk[k + i]);
        assert(oldk2[i + 1] == oldk[k + i + 1]);
    }
    // every young snapshot still tests young
    assert(forall|i: int|
        0 <= i < young.len() ==> snapshot_time(#[trigger] young[i]) < hl);

    // a second classification finds the same bands
    lemma_classify_concat(young + midk, oldk2, hl, dl);
    lemma_classify_concat(young, midk, hl, dl);
    lemma_classify_of_young(young, hl, dl);
    lemma_classify_of_middle(midk, hl, dl);
    lemma_classify_of_old(oldk2, hl, dl);
    assert(classify_middle(sv, hl, dl) =~= midk);
    assert(classify_old(sv, dl) =~= oldk2);

    // the thinned bands re-sweep without rejects
    lemma_sweep_of_spaced(midk, day);
    lemma_sweep_of_spaced(oldk2, week);

    // the capped old band is already within the count cap
    assert(oldk2.len() <= cap);
    assert(cap_rejects(sweep_kept(oldk2, week), cap) =~= Seq::<Snapshot>::empty());
    assert(purge_rejects(sv, now) =~= Seq::<Snapshot>::empty());
}

/// The raw listings the storage driver reported: every volume name on the
/// system, and every snapshot name, ascending by creation time.
#[derive(Debug)]
pub struct FilesystemAttribute {
    pub filesystems: Vec<String>,
    pub snapshots: Vec<String>,
}

impl FilesystemAttribute {
    /// Build the cache contents from the driver's two listings.
    pub fn new(filesystem_names: Vec<String>, snapshot_names: Vec<String>) -> (r:
        FilesystemAttribute)
        ensures
            r.filesystems == filesystem_names,
            r.snapshots == snapshot_names,
    {
        FilesystemAttribute { filesystems: filesystem_names, snapshots: snapshot_names }
    }
}

/// The views of a list of strings.
pub open spec fn string_views(s: Seq<String>) -> Seq<Seq<char>> {
    s.map_values(|x: String| x@)
}

/// Does `name` belong to the volume `vol`: `vol` itself, followed by the `@`
/// separator?
pub open spec fn is_volume_snapshot_name(name: Seq<char>, vol: Seq<char>) -> bool {
    &&& name.len() > vol.len()
    &&& name.subrange(0, vol.len() as int) == vol
    &&& name[vol.len() as int] == '@'
}

/// The names of `names` that belong to the volume `vol`, in input order.
pub open spec fn volume_snapshot_names(names: Seq<Seq<char>>, vol: Seq<char>) -> Seq<Seq<char>>
    decreases names.len(),
{
    if names.len() == 0 {
        names
    } else {
        let r = volume_snapshot_names(names.drop_last(), vol);
        if is_volume_snapshot_name(names.last(), vol) {
            r.push(names.last())
        } else {
            r
        }
    }
}

/// Does some snapshot of `destroys` carry the name `n`?
pub open spec fn name_in(n: Seq<char>, destroys: Seq<Snapshot>) -> bool {
    exists|i: int| 0 <= i < destroys.len() && (#[trigger] destroys[i])@ == n
}

/// The names of `names` that no snapshot of `destroys` carries, in input
/// order.
pub open spec fn remove_destroyed(names: Seq<Seq<char>>, destroys: Seq<Snapshot>) -> Seq<Seq<char>>
    decreases names.len(),
{
    if names.len() == 0 {
        names
    } else {
        let r = remove_destroyed(names.drop_last(), destroys);
        if name_in(names.last(), destroys) {
            r
        } else {
            r.push(names.last())
        }
    }
}

/// Are the two strings the same sequence of characters?
#[verifier::loop_isolation(false)]
fn str_equal(a: &str, b: &str) -> (r: bool)
    ensures
        r == (a@ == b@),
{
    let al: usize = a.unicode_len();
    let bl: usize = b.unicode_len();
    if al != bl {
        return false;
    }
    let mut i: usize = 0;
    while i < al
        invariant
            i <= al,
            forall|k: int| 0 <= k < i ==> a@[k] == b@[k],
        decreases al - i,
    {
        if a.get_char(i) != b.get_char(i) {
            return false;
        }
        i = i + 1;
    }
    proof {
        assert(a@ =~= b@);
    }
    true
}

/// Does `name` start with `volume` followed by the `@` separator?
#[verifier::loop_isolation(false)]
fn matches_volume(name: &str, volume: &str) -> (r: bool)
    ensures
        r == is_volume_snapshot_name(name@, volume@),
{
    let nl: usize = name.unicode_len();
    let vl: usize = volume.unicode_len();
    if nl <= vl {
        return false;
    }
    let mut i: usize = 0;
    while i < vl
        invariant
            i <= vl,
            forall|k: int| 0 <= k < i ==> name@[k] == volume@[k],
        decreases vl - i,
    {
        if name.get_char(i) != volume.get_char(i) {
            proof {
                assert(!is_volume_snapshot_name(name@, volume@)) by {
                    if is_volume_snapshot_name(name@, volume@) {
                        assert(name@.subrange(0, volume@.len() as int)[i as int] == name@[i as int]);
                    }
                }
            }
            return false;
        }
        i = i + 1;
    }
    proof {
        assert(name@.subrange(0, volume@.len() as int) =~= volume@);
    }
    let sep: char = name.get_char(vl);
    sep == '@'
}

/// The in-memory cache of the storage system's state, shared by every volume:
/// which filesystems exist, and which snapshots, ascending by creation time.
#[derive(Debug)]
pub struct FilesystemController {
    pub attribute: FilesystemAttribute,
}

impl FilesystemController {
    /// A controller over freshly listed attributes.
    pub fn new(attribute: FilesystemAttribute) -> (c: FilesystemController)
        ensures
            c.attribute == attribute,
    {
        FilesystemController { attribute }
    }

    /// Is `name` among the cached filesystem names?
    pub open spec fn has_filesystem(self, name: Seq<char>) -> bool {
        exists|i: int|
            0 <= i < self.attribute.filesystems@.len() && (#[trigger] self.attribute.filesystems@[i])@
                == name
    }

    /// Consult the cached filesystem-name list.
    #[verifier::loop_isolation(false)]
    pub fn exist(&self, filesystem: &str) -> (r: bool)
        ensures
            r == self.has_filesystem(filesystem@),
    {
        let mut i: usize = 0;
        while i < self.attribute.filesystems.len()
            invariant
                i <= self.attribute.filesystems@.len(),
                forall|k: int|
                    0 <= k < i ==> (#[trigger] self.attribute.filesystems@[k])@ != filesystem@,
            decreases self.attribute.filesystems@.len() - i,
        {
            if str_equal(self.attribute.filesystems[i].as_str(), filesystem) {
                return true;
            }
            i = i + 1;
        }
        false
    }

    /// The cached snapshot names that belong to `filesystem`, in cache order.
    #[verifier::loop_isolation(false)]
    pub fn get_snapshots(&self, filesystem: &str) -> (r: Vec<String>)
        ensures
            string_views(r@) == volume_snapshot_names(
                string_views(self.attribute.snapshots@),
                filesystem@,
            ),
    {
        let mut r: Vec<String> = Vec::new();
        let mut i: usize = 0;
        while i < self.attribute.snapshots.len()
            invariant
                i <= self.attribute.snapshots@.len(),
                string_views(r@) == volume_snapshot_names(
                    string_views(self.attribute.snapshots@.subrange(0, i as int)),
                    filesystem@,
                ),
            decreases self.attribute.snapshots@.len() - i,
        {
            proof {
                assert(string_views(self.attribute.snapshots@.subrange(0, i as int + 1))
                    =~= string_views(self.attribute.snapshots@.subrange(0, i as int)).push(
                    self.attribute.snapshots@[i as int]@,
                ));
                assert(string_views(self.attribute.snapshots@.subrange(0, i as int + 1)).drop_last()
                    =~= string_views(self.attribute.snapshots@.subrange(0, i as int)));
            }
            if matches_volume(self.attribute.snapshots[i].as_str(), filesystem) {
                r.push(self.attribute.snapshots[i].clone());
                proof {
                    assert(string_views(r@).drop_last() =~= string_views(
                        r@.subrange(0, r@.len() - 1),
                    ));
                    assert(string_views(r@) =~= string_views(r@.subrange(0, r@.len() - 1)).push(
                        self.attribute.snapshots@[i as int]@,
                    ));
                }
            }
            i = i + 1;
        }
        proof {
            assert(self.attribute.snapshots@.subrange(0, self.attribute.snapshots@.len() as int)
                =~= self.attribute.snapshots@);
        }
        r
    }

    /// Record one newly created snapshot name at the end of the cache.
    pub fn add_snapshot(&mut self, snapshot: &str)
        ensures
            final(self).attribute.filesystems == old(self).attribute.filesystems,
            string_views(final(self).attribute.snapshots@) == string_views(
                old(self).attribute.snapshots@,
            ).push(snapshot@),
    {
        self.attribute.snapshots.push(snapshot.to_owned());
        proof {
            assert(string_views(self.attribute.snapshots@) =~= string_views(
                old(self).attribute.snapshots@,
            ).push(snapshot@));
        }
    }

    /// Drop every destroyed snapshot's name from the cache.
    #[verifier::loop_isolation(false)]
    pub fn destroy_snapshots(&mut self, destroys: &Vec<Snapshot>)
        ensures
            final(self).attribute.filesystems == old(self).attribute.filesystems,
            string_views(final(self).attribute.snapshots@) == remove_destroyed(
                string_views(old(self).attribute.snapshots@),
                destroys@,
            ),
    {
        let mut kept: Vec<String> = Vec::new();
        let mut i: usize = 0;
        while i < self.attribute.snapshots.len()
            invariant
                i <= self.attribute.snapshots@.len(),
                string_views(kept@) == remove_destroyed(
                    string_views(self.attribute.snapshots@.subrange(0, i as int)),
                    destroys@,
                ),
            decreases self.attribute.snapshots@.len() - i,
        {
            proof {
                assert(string_views(self.attribute.snapshots@.subrange(0, i as int + 1))
                    =~= string_views(self.attribute.snapshots@.subrange(0, i as int)).push(
                    self.attribute.snapshots@[i as int]@,
                ));
                assert(string_views(self.attribute.snapshots@.subrange(0, i as int + 1)).drop_last()
                    =~= string_views(self.attribute.snapshots@.subrange(0, i as int)));
            }
            if !contains_name(destroys, self.attribute.snapshots[i].as_str()) {
                kept.push(self.attribute.snapshots[i].clone());
                proof {
                    assert(string_views(kept@).drop_last() =~= string_views(
                        kept@.subrange(0, kept@.len() - 1),
                    ));
                    assert(string_views(kept@) =~= string_views(kept@.subrange(0, kept@.len() - 1)).push(
                        self.attribute.snapshots@[i as int]@,
                    ));
                }
            }
            i = i + 1;
        }
        proof {
            assert(self.attribute.snapshots@.subrange(0, self.attribute.snapshots@.len() as int)
                =~= self.attribute.snapshots@);
        }
        self.attribute.snapshots = kept;
    }
}

/// The error a caller gets for a volume name the storage system does not
/// know.
pub open spec fn not_found_message(name: Seq<char>) -> Seq<char> {
    "'"@ + name + "' filesystem is not exist on this machine."@
}

/// One volume of the storage system, bound to its cached snapshot history.
#[derive(Debug)]
pub struct Filesystem {
    pub name: String,
    pub controller: SnapshotCollector,
}

impl Filesystem {
    /// Confirm the `name` filesystem exists on this machine.
    pub fn exist(name: &str, controller: &FilesystemController) -> (r: bool)
        ensures
            r == controller.has_filesystem(name@),
    {
        controller.exist(name)
    }

    /// Make a volume handle from `name`; a name the storage system does not
    /// know is refused, and nothing is touched.
    pub fn from(name: &str, controller: &FilesystemController) -> (r: Result<Filesystem, String>)
        ensures
            match r {
                Ok(f) => {
                    &&& controller.has_filesystem(name@)
                    &&& f.name@ == name@
                    &&& f.controller.filesystem@ == name@
                    &&& names_of(f.controller.snapshots@) == volume_snapshot_names(
                        string_views(controller.attribute.snapshots@),
                        name@,
                    )
                },
                Err(m) => !controller.has_filesystem(name@) && m@ == not_found_message(name@),
            },
    {
        if !Self::exist(name, controller) {
            let mut message: String = "'".to_owned();
            message.append(name);
            message.append("' filesystem is not exist on this machine.");
            return Err(message);
        }
        Ok(Self::new(name, controller))
    }

    /// Create a volume handle bound to the cached snapshots of `name`.
    pub fn new(name: &str, controller: &FilesystemController) -> (f: Filesystem)
        ensures
            f.name@ == name@,
            f.controller.filesystem@ == name@,
            names_of(f.controller.snapshots@) == volume_snapshot_names(
                string_views(controller.attribute.snapshots@),
                name@,
            ),
    {
        let collector: SnapshotCollector = SnapshotCollector::new(name, controller);
        Filesystem { name: name.to_owned(), controller: collector }
    }

    pub fn name(&self) -> (r: String)
        ensures
            r@ == self.name@,
    {
        self.name.clone()
    }

    /// The volume's cached snapshots, in creation order.
    pub fn snapshots(&self) -> (r: Vec<Snapshot>)
        ensures
            r@ == self.controller.snapshots@,
    {
        self.controller.snapshots()
    }

    /// The volume's cached snapshots, borrowed.
    pub fn get_snapshots(&self) -> (r: &Vec<Snapshot>)
        ensures
            r@ == self.controller.snapshots@,
    {
        &self.controller.snapshots
    }

    /// Take one snapshot of this volume now; the caller must then create the
    /// returned snapshot on the storage system.
    pub fn take_snapshot(&mut self, controller: &mut FilesystemController) -> (snapshot: Snapshot)
        ensures
            final(self).name == old(self).name,
            final(self).controller.filesystem == old(self).controller.filesystem,
            snapshot_name_valid(snapshot),
            snapshot@.len() == old(self).controller.filesystem@.len() + 26,
            snapshot@.subrange(0, old(self).controller.filesystem@.len() as int) == old(
                self,
            ).controller.filesystem@,
            snapshot@[old(self).controller.filesystem@.len() as int] == '@',
            final(self).controller.snapshots@ == old(self).controller.snapshots@.push(snapshot),
            final(controller).attribute.filesystems == old(controller).attribute.filesystems,
            string_views(final(controller).attribute.snapshots@) == string_views(
                old(controller).attribute.snapshots@,
            ).push(snapshot@),
    {
        let snapshot: Snapshot = self.controller.take(controller);
        snapshot
    }

    /// Purge this volume's snapshots at the current local time: decide the
    /// destroy set, drop the destroyed names from the cache, and hand the
    /// destroy set back so the caller can destroy them on the storage system.
    pub fn purge_snapshots(&mut self, controller: &mut FilesystemController) -> (destroys: Vec<
        Snapshot,
    >)
        requires
            all_names_valid(old(self).controller.snapshots@),
            old(self).controller.snapshots@.len() <= 0x7fff_ffff,
        ensures
            *final(self) == *old(self),
            exists|now: int|
                calendar::valid_timestamp(now) && destroys@ == #[trigger] purge_rejects(
                    old(self).controller.snapshots@,
                    now,
                ),
            final(controller).attribute.filesystems == old(controller).attribute.filesystems,
            string_views(final(controller).attribute.snapshots@) == remove_destroyed(
                string_views(old(controller).attribute.snapshots@),
                destroys@,
            ),
    {
        let now: i64 = crate::zfs::snapshot::now_timestamp();
        let destroys: Vec<Snapshot> = self.controller.purge(now);
        controller.destroy_snapshots(&destroys);
        destroys
    }
}

/// Does some snapshot of `destroys` carry exactly the name `name`?
#[verifier::loop_isolation(false)]
fn contains_name(destroys: &Vec<Snapshot>, name: &str) -> (r: bool)
    ensures
        r == name_in(name@, destroys@),
{
    let mut j: usize = 0;
    while j < destroys.len()
        invariant
            j <= destroys@.len(),
            forall|k: int| 0 <= k < j ==> (#[trigger] destroys@[k])@ != name@,
        decreases destroys@.len() - j,
    {
        if str_equal(destroys[j].as_str(), name) {
            return true;
        }
        j = j + 1;
    }
    false
}

} // verus!
