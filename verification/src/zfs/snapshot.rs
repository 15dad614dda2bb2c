//! Snapshot identity: deterministic names, and the creation timestamp a name
//! carries.
//!
//! A snapshot name has the shape `<volume>@<prefix>-<YYYY>-<MMDD>-<HHMMSS>`:
//! the volume name, one `@` separator, and a timestamp suffix of exactly 25
//! characters.  The suffix after the last `@` fully determines the snapshot's
//! creation time, at one-second resolution, on the linear timestamp scale of
//! [`crate::calendar`].

use vstd::prelude::*;
use vstd::arithmetic::div_mod::{
    lemma_fundamental_div_mod, lemma_div_is_ordered, lemma_mod_division_less_than_divisor,
    lemma_mod_mod,
};
use vstd::string::{StrSliceExecFns, StringExecFns};

use crate::calendar;
use crate::calendar::CivilTime;
use crate::configure;

verus! {

pub open spec fn char_is_digit(c: char) -> bool {
    '0' as int <= c as int <= '9' as int
}

pub open spec fn digit_val(c: char) -> int {
    c as int - '0' as int
}

/// The character that displays one decimal digit.
pub open spec fn digit_char(d: int) -> char {
    if d == 0 {
        '0'
    } else if d == 1 {
        '1'
    } else if d == 2 {
        '2'
    } else if d == 3 {
        '3'
    } else if d == 4 {
        '4'
    } else if d == 5 {
        '5'
    } else if d == 6 {
        '6'
    } else if d == 7 {
        '7'
    } else if d == 8 {
        '8'
    } else {
        '9'
    }
}

pub proof fn lemma_digit_char(d: int)
    requires
        0 <= d <= 9,
    ensures
        char_is_digit(digit_char(d)),
        digit_val(digit_char(d)) == d,
{
}

/// Value of the two decimal digits at positions `i` and `i + 1`.
pub open spec fn two_digits_val(m: Seq<char>, i: int) -> int {
    digit_val(m[i]) * 10 + digit_val(m[i + 1])
}

/// Value of the four decimal digits starting at position `i`.
pub open spec fn four_digits_val(m: Seq<char>, i: int) -> int {
    digit_val(m[i]) * 1000 + digit_val(m[i + 1]) * 100 + digit_val(m[i + 2]) * 10 + digit_val(
        m[i + 3],
    )
}

/// The two characters that display a value below one hundred.
pub open spec fn two_digit_chars(v: int) -> Seq<char> {
    seq![digit_char(v / 10), digit_char(v % 10)]
}

/// The four characters that display a value below ten thousand.
pub open spec fn four_digit_chars(v: int) -> Seq<char> {
    seq![
        digit_char(v / 1000),
        digit_char((v % 1000) / 100),
        digit_char((v % 100) / 10),
        digit_char(v % 10),
    ]
}

pub proof fn lemma_two_digit_chars(v: int)
    requires
        0 <= v < 100,
    ensures
        two_digit_chars(v).len() == 2,
        forall|i: int| 0 <= i < 2 ==> char_is_digit(#[trigger] two_digit_chars(v)[i]),
        two_digits_val(two_digit_chars(v), 0) == v,
{
    lemma_fundamental_div_mod(v, 10);
    lemma_mod_division_less_than_divisor(v, 10);
    lemma_div_is_ordered(v, 99, 10);
    lemma_digit_char(v / 10);
    lemma_digit_char(v % 10);
}

pub proof fn lemma_four_digit_chars(v: int)
    requires
        0 <= v < 10000,
    ensures
        four_digit_chars(v).len() == 4,
        forall|i: int| 0 <= i < 4 ==> char_is_digit(#[trigger] four_digit_chars(v)[i]),
        four_digits_val(four_digit_chars(v), 0) == v,
{
    lemma_fundamental_div_mod(v, 1000);
    lemma_mod_division_less_than_divisor(v, 1000);
    lemma_div_is_ordered(v, 9999, 1000);
    lemma_fundamental_div_mod(v % 1000, 100);
    lemma_mod_division_less_than_divisor(v % 1000, 100);
    lemma_div_is_ordered(v % 1000, 999, 100);
    lemma_mod_mod(v, 10, 100);
    lemma_fundamental_div_mod(v % 100, 10);
    lemma_mod_division_less_than_divisor(v % 100, 10);
    lemma_div_is_ordered(v % 100, 99, 10);
    lemma_mod_mod(v, 10, 10);
    lemma_digit_char(v / 1000);
    lemma_digit_char((v % 1000) / 100);
    lemma_digit_char((v % 100) / 10);
    lemma_digit_char(v % 10);
}

/// The characters after the last `@` of `n`; all of `n` when it has no `@`.
pub open spec fn tail_after_last_at(n: Seq<char>) -> Seq<char>
    decreases n.len(),
{
    if n.len() == 0 {
        n
    } else if n.last() == '@' {
        Seq::empty()
    } else {
        tail_after_last_at(n.drop_last()).push(n.last())
    }
}

/// Appending `@` and an `@`-free tail replaces the old tail entirely.
pub proof fn lemma_tail_after_append(a: Seq<char>, b: Seq<char>)
    requires
        forall|i: int| 0 <= i < b.len() ==> b[i] != '@',
    ensures
        tail_after_last_at(a + seq!['@'] + b) == b,
    decreases b.len(),
{
    let n = a + seq!['@'] + b;
    if b.len() == 0 {
        assert(n.last() == '@');
    } else {
        assert(n.last() == b.last());
        assert(n.drop_last() =~= a + seq!['@'] + b.drop_last());
        lemma_tail_after_append(a, b.drop_last());
        assert(tail_after_last_at(n) =~= b);
    }
}

/// Does `m` match `<prefix>-<YYYY>-<MMDD>-<HHMMSS>`, with every field in its
/// calendar range?
pub open spec fn valid_timestamp_suffix(m: Seq<char>) -> bool {
    &&& m.len() == 25
    &&& m.subrange(0, 8) == configure::snapshot_prefix()
    &&& m[8] == '-'
    &&& m[13] == '-'
    &&& m[18] == '-'
    &&& char_is_digit(m[9])
    &&& char_is_digit(m[10])
    &&& char_is_digit(m[11])
    &&& char_is_digit(m[12])
    &&& char_is_digit(m[14])
    &&& char_is_digit(m[15])
    &&& char_is_digit(m[16])
    &&& char_is_digit(m[17])
    &&& char_is_digit(m[19])
    &&& char_is_digit(m[20])
    &&& char_is_digit(m[21])
    &&& char_is_digit(m[22])
    &&& char_is_digit(m[23])
    &&& char_is_digit(m[24])
    &&& calendar::valid_date(four_digits_val(m, 9), two_digits_val(m, 14), two_digits_val(m, 16))
    &&& calendar::valid_clock(
        two_digits_val(m, 19),
        two_digits_val(m, 21),
        two_digits_val(m, 23),
    )
}

/// The timestamp a valid suffix displays.
pub open spec fn suffix_seconds(m: Seq<char>) -> int {
    calendar::civil_seconds(
        four_digits_val(m, 9),
        two_digits_val(m, 14),
        two_digits_val(m, 16),
        two_digits_val(m, 19),
        two_digits_val(m, 21),
        two_digits_val(m, 23),
    )
}

/// A well-formed snapshot name: whatever follows its last `@` is a valid
/// timestamp suffix.
pub open spec fn valid_snapshot_name(n: Seq<char>) -> bool {
    valid_timestamp_suffix(tail_after_last_at(n))
}

/// The creation timestamp a well-formed snapshot name carries.
pub open spec fn created_at_of(n: Seq<char>) -> int {
    suffix_seconds(tail_after_last_at(n))
}

/// A valid suffix never contains `@`, so it survives as the tail after the
/// last `@` of the full name.
pub proof fn lemma_suffix_has_no_at(m: Seq<char>)
    requires
        valid_timestamp_suffix(m),
    ensures
        forall|i: int| 0 <= i < m.len() ==> m[i] != '@',
{
    assert forall|i: int| 0 <= i < m.len() implies m[i] != '@' by {
        if i < 8 {
            assert(m[i] == configure::snapshot_prefix()[i]) by {
                assert(m.subrange(0, 8)[i] == m[i]);
            }
        }
    }
}

/// The full timestamp suffix displaying a civil time.
pub open spec fn timestamp_suffix_chars(y: int, mo: int, d: int, h: int, mi: int, s: int) -> Seq<
    char,
> {
    configure::snapshot_prefix() + seq!['-'] + four_digit_chars(y) + seq!['-'] + two_digit_chars(mo)
        + two_digit_chars(d) + seq!['-'] + two_digit_chars(h) + two_digit_chars(mi)
        + two_digit_chars(s)
}

/// Displaying a valid civil time yields a valid suffix, and the suffix reads
/// back as the very same fields.
pub proof fn lemma_timestamp_suffix_valid(y: int, mo: int, d: int, h: int, mi: int, s: int)
    requires
        calendar::valid_date(y, mo, d),
        calendar::valid_clock(h, mi, s),
    ensures
        valid_timestamp_suffix(timestamp_suffix_chars(y, mo, d, h, mi, s)),
        suffix_seconds(timestamp_suffix_chars(y, mo, d, h, mi, s)) == calendar::civil_seconds(
            y,
            mo,
            d,
            h,
            mi,
            s,
        ),
{
    let m = timestamp_suffix_chars(y, mo, d, h, mi, s);
    lemma_four_digit_chars(y);
    lemma_two_digit_chars(mo);
    lemma_two_digit_chars(d);
    lemma_two_digit_chars(h);
    lemma_two_digit_chars(mi);
    lemma_two_digit_chars(s);
    assert(m =~= configure::snapshot_prefix() + seq!['-'] + four_digit_chars(y) + seq!['-']
        + two_digit_chars(mo) + two_digit_chars(d) + seq!['-'] + two_digit_chars(h)
        + two_digit_chars(mi) + two_digit_chars(s));
    assert(m.len() == 25);
    assert(m.subrange(0, 8) =~= configure::snapshot_prefix());
    assert(m[8] == '-' && m[13] == '-' && m[18] == '-');
    assert(m[9] == four_digit_chars(y)[0] && m[10] == four_digit_chars(y)[1] && m[11]
        == four_digit_chars(y)[2] && m[12] == four_digit_chars(y)[3]);
    assert(m[14] == two_digit_chars(mo)[0] && m[15] == two_digit_chars(mo)[1]);
    assert(m[16] == two_digit_chars(d)[0] && m[17] == two_digit_chars(d)[1]);
    assert(m[19] == two_digit_chars(h)[0] && m[20] == two_digit_chars(h)[1]);
    assert(m[21] == two_digit_chars(mi)[0] && m[22] == two_digit_chars(mi)[1]);
    assert(m[23] == two_digit_chars(s)[0] && m[24] == two_digit_chars(s)[1]);
    assert(four_digits_val(m, 9) == four_digits_val(four_digit_chars(y), 0));
    assert(two_digits_val(m, 14) == two_digits_val(two_digit_chars(mo), 0));
    assert(two_digits_val(m, 16) == two_digits_val(two_digit_chars(d), 0));
    assert(two_digits_val(m, 19) == two_digits_val(two_digit_chars(h), 0));
    assert(two_digits_val(m, 21) == two_digits_val(two_digit_chars(mi), 0));
    assert(two_digits_val(m, 23) == two_digits_val(two_digit_chars(s), 0));
}

/// The one-character string that displays one decimal digit.
fn digit_str(d: u32) -> (r: &'static str)
    requires
        d < 10,
    ensures
        r@ == seq![digit_char(d as int)],
{
    if d == 0 {
        proof {
            reveal_strlit("0");
        }
        let r = "0";
        proof {
            assert(r@ =~= seq![digit_char(d as int)]);
        }
        r
    } else if d == 1 {
        proof {
            reveal_strlit("1");
        }
        let r = "1";
        proof {
            assert(r@ =~= seq![digit_char(d as int)]);
        }
        r
    } else if d == 2 {
        proof {
            reveal_strlit("2");
        }
        let r = "2";
        proof {
            assert(r@ =~= seq![digit_char(d as int)]);
        }
        r
    } else if d == 3 {
        proof {
            reveal_strlit("3");
        }
        let r = "3";
        proof {
            assert(r@ =~= seq![digit_char(d as int)]);
        }
        r
    } else if d == 4 {
        proof {
            reveal_strlit("4");
        }
        let r = "4";
        proof {
            assert(r@ =~= seq![digit_char(d as int)]);
        }
        r
    } else if d == 5 {
        proof {
            reveal_strlit("5");
        }
        let r = "5";
        proof {
            assert(r@ =~= seq![digit_char(d as int)]);
        }
        r
    } else if d == 6 {
        proof {
            reveal_strlit("6");
        }
        let r = "6";
        proof {
            assert(r@ =~= seq![digit_char(d as int)]);
        }
        r
    } else if d == 7 {
        proof {
            reveal_strlit("7");
        }
        let r = "7";
        proof {
            assert(r@ =~= seq![digit_char(d as int)]);
        }
        r
    } else if d == 8 {
        proof {
            reveal_strlit("8");
        }
        let r = "8";
        proof {
            assert(r@ =~= seq![digit_char(d as int)]);
        }
        r
    } else {
        proof {
            reveal_strlit("9");
        }
        let r = "9";
        proof {
            assert(r@ =~= seq![digit_char(d as int)]);
        }
        r
    }
}

/// Append a value below one hundred as two zero-padded digits.
fn push_two_digits(r: &mut String, v: u32)
    requires
        v < 100,
    ensures
        final(r)@ == old(r)@ + two_digit_chars(v as int),
{
    r.append(digit_str(v / 10));
    r.append(digit_str(v % 10));
}

/// Append a value below ten thousand as four zero-padded digits.
fn push_four_digits(r: &mut String, v: u32)
    requires
        v < 10000,
    ensures
        final(r)@ == old(r)@ + four_digit_chars(v as int),
{
    r.append(digit_str(v / 1000));
    r.append(digit_str((v % 1000) / 100));
    r.append(digit_str((v % 100) / 10));
    r.append(digit_str(v % 10));
}

/// A well-formed name carries a representable timestamp.
pub proof fn lemma_created_at_range(n: Seq<char>)
    requires
        valid_snapshot_name(n),
    ensures
        calendar::valid_timestamp(created_at_of(n)),
{
    let m = tail_after_last_at(n);
    calendar::lemma_civil_seconds_range(
        four_digits_val(m, 9),
        two_digits_val(m, 14),
        two_digits_val(m, 16),
        two_digits_val(m, 19),
        two_digits_val(m, 21),
        two_digits_val(m, 23),
    );
}

/// Relies on chrono's `Local::now`, `DateTime::naive_local`,
/// `NaiveDateTime::and_utc` and `DateTime::timestamp`: the machine's current
/// civil time in its local timezone, counted as seconds on the linear scale
/// (the naive local fields read as if they were UTC).  Nothing is promised of
/// a clock reading.
#[verifier::external_body]
pub(crate) fn now_local_seconds() -> i64 {
    chrono::Local::now().naive_local().and_utc().timestamp()
}

/// The machine's current local time, forced into the representable timestamp
/// range.
pub(crate) fn now_timestamp() -> (t: i64)
    ensures
        calendar::valid_timestamp(t as int),
{
    let raw: i64 = now_local_seconds();
    let max: i64 = calendar::max_timestamp_seconds();
    if raw < 0 {
        0
    } else if raw >= max {
        max - 1
    } else {
        raw
    }
}

/// Read two decimal digits of `s` starting at position `i`.
fn read_two_digits(s: &str, i: usize) -> (r: Option<u32>)
    requires
        i + 2 <= s@.len(),
        s@.len() <= usize::MAX,
    ensures
        match r {
            Some(v) => char_is_digit(s@[i as int]) && char_is_digit(s@[i as int + 1]) && v
                == two_digits_val(s@, i as int) && v < 100,
            None => !(char_is_digit(s@[i as int]) && char_is_digit(s@[i as int + 1])),
        },
{
    let c0: u32 = s.get_char(i) as u32;
    let c1: u32 = s.get_char(i + 1) as u32;
    proof {
        assert('0' as int == 48 && '9' as int == 57);
    }
    if 48 <= c0 && c0 <= 57 && 48 <= c1 && c1 <= 57 {
        Some((c0 - 48) * 10 + (c1 - 48))
    } else {
        None
    }
}

/// Read four decimal digits of `s` starting at position `i`.
fn read_four_digits(s: &str, i: usize) -> (r: Option<u32>)
    requires
        i + 4 <= s@.len(),
        s@.len() <= usize::MAX,
    ensures
        match r {
            Some(v) => char_is_digit(s@[i as int]) && char_is_digit(s@[i as int + 1])
                && char_is_digit(s@[i as int + 2]) && char_is_digit(s@[i as int + 3]) && v
                == four_digits_val(s@, i as int) && v < 10000,
            None => !(char_is_digit(s@[i as int]) && char_is_digit(s@[i as int + 1])
                && char_is_digit(s@[i as int + 2]) && char_is_digit(s@[i as int + 3])),
        },
{
    let c0: u32 = s.get_char(i) as u32;
    let c1: u32 = s.get_char(i + 1) as u32;
    let c2: u32 = s.get_char(i + 2) as u32;
    let c3: u32 = s.get_char(i + 3) as u32;
    proof {
        assert('0' as int == 48 && '9' as int == 57);
    }
    if 48 <= c0 && c0 <= 57 && 48 <= c1 && c1 <= 57 && 48 <= c2 && c2 <= 57 && 48 <= c3 && c3 <= 57
     {
        Some((c0 - 48) * 1000 + (c1 - 48) * 100 + (c2 - 48) * 10 + (c3 - 48))
    } else {
        None
    }
}

/// The three age bands of one volume's snapshot history.
#[derive(Debug)]
pub struct Generation {
    pub young: Vec<Snapshot>,
    pub middle: Vec<Snapshot>,
    pub old: Vec<Snapshot>,
}

/// One snapshot, identified by its name; the creation timestamp is derived
/// from the name on demand.
#[derive(Debug)]
pub struct Snapshot {
    name: String,
}

impl View for Snapshot {
    type V = Seq<char>;

    closed spec fn view(&self) -> Seq<char> {
        self.name@
    }
}

/// The creation timestamp a snapshot's name carries.
pub open spec fn snapshot_time(s: Snapshot) -> int {
    created_at_of(s@)
}

pub open spec fn snapshot_name_valid(s: Snapshot) -> bool {
    valid_snapshot_name(s@)
}

pub open spec fn all_names_valid(s: Seq<Snapshot>) -> bool {
    forall|i: int| 0 <= i < s.len() ==> snapshot_name_valid(#[trigger] s[i])
}

impl Snapshot {
    /// The name a snapshot of `name` takes at timestamp `t`.
    #[verifier::rlimit(50)]
    pub fn generate_name_at(name: &str, t: i64) -> (r: String)
        requires
            calendar::valid_timestamp(t as int),
        ensures
            r@.len() == name@.len() + 26,
            r@.subrange(0, name@.len() as int) == name@,
            r@[name@.len() as int] == '@',
            valid_timestamp_suffix(r@.subrange(name@.len() as int + 1, r@.len() as int)),
            suffix_seconds(r@.subrange(name@.len() as int + 1, r@.len() as int)) == t,
            valid_snapshot_name(r@),
            created_at_of(r@) == t,
    {
        let c: CivilTime = calendar::civil_from_timestamp(t);
        let mut r: String = name.to_owned();
        r.append("@");
        r.append(configure::snapshot_prefix_str());
        r.append("-");
        push_four_digits(&mut r, c.year);
        r.append("-");
        push_two_digits(&mut r, c.month);
        push_two_digits(&mut r, c.day);
        r.append("-");
        push_two_digits(&mut r, c.hour);
        push_two_digits(&mut r, c.minute);
        push_two_digits(&mut r, c.second);
        proof {
            reveal_strlit("@");
            reveal_strlit("-");
            assert("@"@ =~= seq!['@']);
            assert("-"@ =~= seq!['-']);
            let sfx = timestamp_suffix_chars(
                c.year as int,
                c.month as int,
                c.day as int,
                c.hour as int,
                c.minute as int,
                c.second as int,
            );
            lemma_timestamp_suffix_valid(
                c.year as int,
                c.month as int,
                c.day as int,
                c.hour as int,
                c.minute as int,
                c.second as int,
            );
            assert(r@ =~= name@ + seq!['@'] + sfx);
            assert(r@.subrange(0, name@.len() as int) =~= name@);
            assert(r@.subrange(name@.len() as int + 1, r@.len() as int) =~= sfx);
            lemma_suffix_has_no_at(sfx);
            lemma_tail_after_append(name@, sfx);
        }
        r
    }

    /// The name a snapshot of `name` takes now: the current local time decides
    /// the timestamp suffix.
    pub fn generate_name(name: &str) -> (r: String)
        ensures
            r@.len() == name@.len() + 26,
            r@.subrange(0, name@.len() as int) == name@,
            r@[name@.len() as int] == '@',
            valid_snapshot_name(r@),
    {
        let t: i64 = now_timestamp();
        Snapshot::generate_name_at(name, t)
    }

    pub fn new(name: &str) -> (s: Snapshot)
        ensures
            s@ == name@,
    {
        Snapshot { name: name.to_owned() }
    }

    pub fn name(&self) -> (r: String)
        ensures
            r@ == self@,
    {
        self.name.clone()
    }

    /// The snapshot's name, borrowed.
    pub fn as_str(&self) -> (r: &str)
        ensures
            r@ == self@,
    {
        self.name.as_str()
    }

    /// A copy of this snapshot.
    pub fn duplicate(&self) -> (r: Snapshot)
        ensures
            r == *self,
    {
        Snapshot { name: self.name.clone() }
    }

    /// The creation timestamp this snapshot's name carries, or `None` when
    /// the name does not match the snapshot name pattern.
    #[verifier::loop_isolation(false)]
    pub fn try_get_datetime(&self) -> (r: Option<i64>)
        ensures
            match r {
                Some(t) => snapshot_name_valid(*self) && t == created_at_of(self@)
                    && calendar::valid_timestamp(t as int),
                None => !snapshot_name_valid(*self),
            },
    {
        let s: &str = self.name.as_str();
        let n: usize = s.unicode_len();
        let ghost sv: Seq<char> = s@;
        let mut start: usize = 0;
        let mut i: usize = 0;
        while i < n
            invariant
                i <= n,
                start <= i,
                n == sv.len(),
                s@ == sv,
                tail_after_last_at(sv.subrange(0, i as int)) == sv.subrange(
                    start as int,
                    i as int,
                ),
            decreases n - i,
        {
            let c: char = s.get_char(i);
            proof {
                assert(sv.subrange(0, i as int + 1).drop_last() =~= sv.subrange(0, i as int));
                assert(sv.subrange(0, i as int + 1).last() == sv[i as int]);
            }
            if c == '@' {
                start = i + 1;
                proof {
                    assert(sv.subrange(start as int, i as int + 1) =~= Seq::<char>::empty());
                }
            } else {
                proof {
                    assert(sv.subrange(start as int, i as int + 1) =~= sv.subrange(
                        start as int,
                        i as int,
                    ).push(sv[i as int]));
                }
            }
            i = i + 1;
        }
        proof {
            assert(sv.subrange(0, n as int) =~= sv);
        }
        let ghost m: Seq<char> = sv.subrange(start as int, n as int);
        proof {
            assert(tail_after_last_at(self@) == m);
        }
        if n - start != 25 {
            return None;
        }
        let p: &str = configure::snapshot_prefix_str();
        let mut j: usize = 0;
        while j < 8
            invariant
                j <= 8,
                start + 25 == n,
                n == sv.len(),
                s@ == sv,
                p@ == configure::snapshot_prefix(),
                m == sv.subrange(start as int, n as int),
                forall|k: int| 0 <= k < j ==> m[k] == configure::snapshot_prefix()[k],
            decreases 8 - j,
        {
            let c: char = s.get_char(start + j);
            let e: char = p.get_char(j);
            proof {
                assert(m[j as int] == sv[start as int + j as int]);
            }
            if c != e {
                proof {
                    assert(!valid_timestamp_suffix(m)) by {
                        if valid_timestamp_suffix(m) {
                            assert(m.subrange(0, 8)[j as int] == m[j as int]);
                        }
                    }
                }
                return None;
            }
            j = j + 1;
        }
        proof {
            assert(m.subrange(0, 8) =~= configure::snapshot_prefix());
            assert(m[8] == sv[start as int + 8]);
            assert(m[13] == sv[start as int + 13]);
            assert(m[18] == sv[start as int + 18]);
        }
        if s.get_char(start + 8) != '-' || s.get_char(start + 13) != '-' || s.get_char(start + 18)
            != '-' {
            return None;
        }
        proof {
            assert(m[9] == sv[start as int + 9] && m[10] == sv[start as int + 10] && m[11]
                == sv[start as int + 11] && m[12] == sv[start as int + 12]);
            assert(m[14] == sv[start as int + 14] && m[15] == sv[start as int + 15]);
            assert(m[16] == sv[start as int + 16] && m[17] == sv[start as int + 17]);
            assert(m[19] == sv[start as int + 19] && m[20] == sv[start as int + 20]);
            assert(m[21] == sv[start as int + 21] && m[22] == sv[start as int + 22]);
            assert(m[23] == sv[start as int + 23] && m[24] == sv[start as int + 24]);
        }
        let year: u32 = match read_four_digits(s, start + 9) {
            Some(v) => v,
            None => {
                return None;
            },
        };
        let month: u32 = match read_two_digits(s, start + 14) {
            Some(v) => v,
            None => {
                return None;
            },
        };
        let day: u32 = match read_two_digits(s, start + 16) {
            Some(v) => v,
            None => {
                return None;
            },
        };
        let hour: u32 = match read_two_digits(s, start + 19) {
            Some(v) => v,
            None => {
                return None;
            },
        };
        let minute: u32 = match read_two_digits(s, start + 21) {
            Some(v) => v,
            None => {
                return None;
            },
        };
        let second: u32 = match read_two_digits(s, start + 23) {
            Some(v) => v,
            None => {
                return None;
            },
        };
        proof {
            assert(four_digits_val(m, 9) == year as int);
            assert(two_digits_val(m, 14) == month as int);
            assert(two_digits_val(m, 16) == day as int);
            assert(two_digits_val(m, 19) == hour as int);
            assert(two_digits_val(m, 21) == minute as int);
            assert(two_digits_val(m, 23) == second as int);
        }
        if year < 1970 {
            return None;
        }
        if month < 1 || month > 12 {
            return None;
        }
        if day < 1 || day > calendar::month_days(year, month) {
            return None;
        }
        if hour > 23 || minute > 59 || second > 59 {
            return None;
        }
        let c = CivilTime { year, month, day, hour, minute, second };
        let t: i64 = calendar::seconds_from_civil(c);
        proof {
            assert(valid_timestamp_suffix(m));
            assert(suffix_seconds(m) == t as int);
        }
        Some(t)
    }

    /// The creation timestamp of a well-formed snapshot name.
    pub fn get_datetime(&self) -> (t: i64)
        requires
            snapshot_name_valid(*self),
        ensures
            t == created_at_of(self@),
            calendar::valid_timestamp(t as int),
    {
        match self.try_get_datetime() {
            Some(t) => t,
            None => unreached(),
        }
    }

    /// Split `snapshots` into the three age bands relative to `now`, keeping
    /// the input order inside each band.
    pub fn generation(snapshots: &Vec<Snapshot>, now: i64) -> (g: Generation)
        requires
            all_names_valid(snapshots@),
            calendar::valid_timestamp(now as int),
        ensures
            g.young@ == classify_young(snapshots@, hours_limit(now as int)),
            g.middle@ == classify_middle(snapshots@, hours_limit(now as int), days_limit(now as int)),
            g.old@ == classify_old(snapshots@, days_limit(now as int)),
    {
        proof {
            calendar::lemma_max_timestamp_bound();
        }
        let hl: i64 = now + (configure::SNAPSHOT_KEEP_HOURS as i64) * 3600;
        let dl: i64 = now + (configure::SNAPSHOT_KEEP_DAYS as i64) * 86400;
        let mut young: Vec<Snapshot> = Vec::new();
        let mut middle: Vec<Snapshot> = Vec::new();
        let mut old: Vec<Snapshot> = Vec::new();
        let mut idx: usize = 0;
        while idx < snapshots.len()
            invariant
                idx <= snapshots.len(),
                all_names_valid(snapshots@),
                hl == hours_limit(now as int),
                dl == days_limit(now as int),
                young@ == classify_young(snapshots@.subrange(0, idx as int), hl as int),
                middle@ == classify_middle(
                    snapshots@.subrange(0, idx as int),
                    hl as int,
                    dl as int,
                ),
                old@ == classify_old(snapshots@.subrange(0, idx as int), dl as int),
            decreases snapshots.len() - idx,
        {
            let snap: &Snapshot = &snapshots[idx];
            let dt: i64 = snap.get_datetime();
            proof {
                assert(snapshots@.subrange(0, idx as int + 1).drop_last() =~= snapshots@.subrange(
                    0,
                    idx as int,
                ));
                assert(snapshots@.subrange(0, idx as int + 1).last() == snapshots@[idx as int]);
            }
            if dt < hl {
                young.push(snap.duplicate());
            } else if dt < dl {
                middle.push(snap.duplicate());
            } else {
                old.push(snap.duplicate());
            }
            idx = idx + 1;
        }
        proof {
            assert(snapshots@.subrange(0, snapshots@.len() as int) =~= snapshots@);
        }
        Generation { young, middle, old }
    }
}

/// The instant separating the young band from the middle one, relative to
/// `now`.
pub open spec fn hours_limit(now: int) -> int {
    now + configure::SNAPSHOT_KEEP_HOURS * 3600
}

/// The instant separating the middle band from the old one, relative to
/// `now`.
pub open spec fn days_limit(now: int) -> int {
    now + configure::SNAPSHOT_KEEP_DAYS * 86400
}

/// The snapshots created before `hl`, in input order.
pub open spec fn classify_young(s: Seq<Snapshot>, hl: int) -> Seq<Snapshot>
    decreases s.len(),
{
    if s.len() == 0 {
        s
    } else {
        let r = classify_young(s.drop_last(), hl);
        if snapshot_time(s.last()) < hl {
            r.push(s.last())
        } else {
            r
        }
    }
}

/// The snapshots created at or after `hl` but before `dl`, in input order.
pub open spec fn classify_middle(s: Seq<Snapshot>, hl: int, dl: int) -> Seq<Snapshot>
    decreases s.len(),
{
    if s.len() == 0 {
        s
    } else {
        let r = classify_middle(s.drop_last(), hl, dl);
        if hl <= snapshot_time(s.last()) && snapshot_time(s.last()) < dl {
            r.push(s.last())
        } else {
            r
        }
    }
}

/// The snapshots created at or after `dl`, in input order.
pub open spec fn classify_old(s: Seq<Snapshot>, dl: int) -> Seq<Snapshot>
    decreases s.len(),
{
    if s.len() == 0 {
        s
    } else {
        let r = classify_old(s.drop_last(), dl);
        if snapshot_time(s.last()) >= dl {
            r.push(s.last())
        } else {
            r
        }
    }
}

/// Generation classification loses nothing and duplicates nothing: the three
/// bands together hold exactly as many snapshots as the input.
pub proof fn lemma_generation_partitions(s: Seq<Snapshot>, hl: int, dl: int)
    requires
        hl <= dl,
    ensures
        classify_young(s, hl).len() + classify_middle(s, hl, dl).len() + classify_old(s, dl).len()
            == s.len(),
    decreases s.len(),
{
    if s.len() > 0 {
        lemma_generation_partitions(s.drop_last(), hl, dl);
    }
}

} // verus!
