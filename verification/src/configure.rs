use vstd::prelude::*;

verus! {

/// The characters of the fixed prefix that follows the `@` separator in every
/// snapshot name this program takes.
pub open spec fn snapshot_prefix() -> Seq<char> {
    seq!['e', 'l', 'e', 'p', 'h', 'a', 'n', 't']
}

/// The fixed snapshot-name prefix.
pub fn snapshot_prefix_str() -> (s: &'static str)
    ensures
        s@ == snapshot_prefix(),
{
    proof {
        reveal_strlit("elephant");
    }
    let p = "elephant";
    proof {
        assert(p@ =~= snapshot_prefix());
    }
    p
}

/// Number of weekly snapshots kept in the old generation.
pub const SNAPSHOT_KEEP_WEEKS: i32 = 104;

/// Age limit, in days, separating the middle generation from the old one.
pub const SNAPSHOT_KEEP_DAYS: i32 = 30;

/// Age limit, in hours, separating the young generation from the middle one.
pub const SNAPSHOT_KEEP_HOURS: i32 = 24;

} // verus!
