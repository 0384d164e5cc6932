//! The heap-position permutation checker.
//!
//! A test case is a sequence of `n` values, each claimed to lie in `1..=n`,
//! placed into 1-based heap array positions. In such an array the children
//! of position `p` are `2p` and `2p + 1` and the parent of `p` is `p / 2`
//! (truncating division). The checker records, for every value `v`, the
//! position at which `v` appeared, and then asks for every target index
//! `i` whether that recorded position reaches `i` by repeated doubling
//! (when it is below `i`) or repeated halving (when it is above `i`).
//! If every index passes, the verdict is `true` (YES); otherwise `false`
//! (NO).
//!
//! The position table may be a fresh allocation per case ([`check_case`])
//! or a caller-owned scratch table reused across cases
//! ([`PositionTable`]); the scratch table is cleared again after each
//! case, so verdicts never depend on earlier cases.

use vstd::prelude::*;
use vstd::pervasive::VecAdditionalExecFns;
use vstd::arithmetic::power2::pow2;
use vstd::arithmetic::power2::lemma_pow2_pos;
use vstd::arithmetic::power2::lemma_pow2_unfold;
use vstd::arithmetic::power2::lemma_pow2_strictly_increases;
use vstd::arithmetic::div_mod::lemma_div_denominator;
use vstd::arithmetic::div_mod::lemma_div_is_ordered_by_denominator;
use vstd::arithmetic::div_mod::lemma_div_is_strictly_smaller;

verus! {

/// Largest sequence length a test case may have.
pub const MAX_CASE_LEN: usize = 200000;

/// Slot count of the reusable position table: one slot per possible value,
/// plus the unused slot 0.
pub const TABLE_SIZE: usize = MAX_CASE_LEN + 1;

/// The 1-based index at which value `v` last occurs in `s`, or 0 when `v`
/// does not occur at all. This is exactly what a position table holds for
/// `v` after being filled left to right, later occurrences overwriting
/// earlier ones.
pub open spec fn last_position_of(s: Seq<usize>, v: int) -> int
    decreases s.len(),
{
    if s.len() == 0 {
        0
    } else if s[s.len() - 1] as int == v {
        s.len() as int
    } else {
        last_position_of(s.drop_last(), v)
    }
}

/// Recorded position `p` is consistent with target index `i` when repeated
/// doubling (for `p < i`) or repeated truncating halving (for `p > i`)
/// lands exactly on `i`. A position of 0 (a value that never occurred) is
/// consistent with no target index `i >= 1`.
pub open spec fn climb_consistent(p: int, i: int) -> bool {
    if p < i {
        exists|k: nat| i == p * pow2(k)
    } else if p > i {
        exists|k: nat| i == p / (pow2(k) as int)
    } else {
        true
    }
}

/// The verdict for a whole case: every target index `i` in `1..=n` is
/// consistent with the position recorded for value `i`.
pub open spec fn heap_verdict(s: Seq<usize>) -> bool {
    forall|i: int|
        1 <= i <= s.len() ==> #[trigger] climb_consistent(last_position_of(s, i), i)
}

/// Every entry of `s` lies in `1..=s.len()`.
pub open spec fn values_in_range(s: Seq<usize>) -> bool {
    forall|j: int| 0 <= j < s.len() ==> 1 <= #[trigger] s[j] <= s.len()
}

/// `s` is a permutation of `1..=s.len()`: entries in range and pairwise
/// distinct.
pub open spec fn is_permutation(s: Seq<usize>) -> bool {
    &&& values_in_range(s)
    &&& forall|j: int, k: int| 0 <= j < k < s.len() ==> s[j] != s[k]
}

/// Decides `climb_consistent(p, i)` by running the climb itself.
fn climb(p: usize, i: usize) -> (r: bool)
    requires
        1 <= i <= MAX_CASE_LEN,
        p <= MAX_CASE_LEN,
    ensures
        r == climb_consistent(p as int, i as int),
{
    if p == i {
        true
    } else if p == 0 {
        proof {
            assert forall|k: nat| i as int != 0 * pow2(k) by {
                assert(0 * pow2(k) == 0);
            }
        }
        false
    } else if p < i {
        let ghost pi = p as int;
        let ghost ii = i as int;
        let mut q = p;
        while q < i
            invariant
                1 <= q,
                i <= MAX_CASE_LEN,
                ii == i as int,
                q as int <= 2 * ii,
                (exists|k: nat| ii == q * pow2(k)) == (exists|k: nat| ii == pi * pow2(k)),
            decreases 2 * ii - q as int,
        {
            proof {
                lemma_double_step(q as int, ii);
            }
            q = q * 2;
        }
        proof {
            lemma_double_stops(q as int, ii);
        }
        q == i
    } else {
        let ghost pi = p as int;
        let ghost ii = i as int;
        let mut q = p;
        while i < q
            invariant
                1 <= q,
                1 <= i,
                ii == i as int,
                (exists|k: nat| ii == q as int / (pow2(k) as int)) == (exists|k: nat|
                    ii == pi / (pow2(k) as int)),
            decreases q,
        {
            proof {
                lemma_halve_step(q as int, ii);
            }
            q = q / 2;
        }
        proof {
            lemma_halve_stops(q as int, ii);
        }
        q == i
    }
}

/// Doubling preserves reachability: the doubling climb from `q` lands on
/// `i` exactly when the climb from `2q` does, as long as `q` is still
/// strictly below `i`.
proof fn lemma_double_step(q: int, i: int)
    requires
        1 <= q < i,
    ensures
        (exists|k: nat| i == q * pow2(k)) == (exists|k: nat| i == (2 * q) * pow2(k)),
{
    if exists|k: nat| i == q * pow2(k) {
        let k = choose|k: nat| i == q * pow2(k);
        if k == 0 {
            assert(pow2(0) == 1) by {
                vstd::arithmetic::power::lemma_pow0(2);
            }
            assert(false);
        }
        lemma_pow2_unfold(k);
        assert(q * pow2(k) == (2 * q) * pow2((k - 1) as nat)) by {
            assert(q * (2 * pow2((k - 1) as nat)) == (2 * q) * pow2((k - 1) as nat))
                by (nonlinear_arith);
        }
        assert(i == (2 * q) * pow2((k - 1) as nat));
    }
    if exists|k: nat| i == (2 * q) * pow2(k) {
        let k = choose|k: nat| i == (2 * q) * pow2(k);
        lemma_pow2_unfold(k + 1);
        assert((2 * q) * pow2(k) == q * pow2(k + 1)) by {
            assert((2 * q) * pow2(k) == q * (2 * pow2(k))) by (nonlinear_arith);
        }
        assert(i == q * pow2(k + 1));
    }
}

/// Once the doubling climb has reached or passed `i`, it lands on `i`
/// exactly when it stands on `i`.
proof fn lemma_double_stops(q: int, i: int)
    requires
        1 <= q,
        1 <= i <= q,
    ensures
        (exists|k: nat| i == q * pow2(k)) == (q == i),
{
    if exists|k: nat| i == q * pow2(k) {
        let k = choose|k: nat| i == q * pow2(k);
        if k == 0 {
            assert(pow2(0) == 1) by {
                vstd::arithmetic::power::lemma_pow0(2);
            }
            assert(q == i);
        } else {
            lemma_pow2_strictly_increases(0, k);
            assert(pow2(0) == 1) by {
                vstd::arithmetic::power::lemma_pow0(2);
            }
            assert(q * pow2(k) >= q * 2) by (nonlinear_arith)
                requires
                    q >= 1,
                    pow2(k) >= 2,
            ;
            assert(false);
        }
    }
    if q == i {
        assert(pow2(0) == 1) by {
            vstd::arithmetic::power::lemma_pow0(2);
        }
        assert(i == q * pow2(0));
    }
}

/// Halving preserves reachability: the halving climb from `q` lands on `i`
/// exactly when the climb from `q / 2` does, as long as `q` is still
/// strictly above `i`.
proof fn lemma_halve_step(q: int, i: int)
    requires
        1 <= i < q,
    ensures
        (exists|k: nat| i == q / (pow2(k) as int)) == (exists|k: nat|
            i == (q / 2) / (pow2(k) as int)),
{
    if exists|k: nat| i == q / (pow2(k) as int) {
        let k = choose|k: nat| i == q / (pow2(k) as int);
        if k == 0 {
            assert(pow2(0) == 1) by {
                vstd::arithmetic::power::lemma_pow0(2);
            }
            assert(false);
        }
        lemma_pow2_pos((k - 1) as nat);
        lemma_pow2_unfold(k);
        lemma_div_denominator(q, 2, pow2((k - 1) as nat) as int);
        assert(i == (q / 2) / (pow2((k - 1) as nat) as int));
    }
    if exists|k: nat| i == (q / 2) / (pow2(k) as int) {
        let k = choose|k: nat| i == (q / 2) / (pow2(k) as int);
        lemma_pow2_pos(k);
        lemma_pow2_unfold(k + 1);
        lemma_div_denominator(q, 2, pow2(k) as int);
        assert(i == q / (pow2(k + 1) as int));
    }
}

/// Once the halving climb has reached or passed `i`, it lands on `i`
/// exactly when it stands on `i`.
proof fn lemma_halve_stops(q: int, i: int)
    requires
        1 <= q <= i,
    ensures
        (exists|k: nat| i == q / (pow2(k) as int)) == (q == i),
{
    if exists|k: nat| i == q / (pow2(k) as int) {
        let k = choose|k: nat| i == q / (pow2(k) as int);
        if k == 0 {
            assert(pow2(0) == 1) by {
                vstd::arithmetic::power::lemma_pow0(2);
            }
            assert(q == i);
        } else {
            lemma_pow2_strictly_increases(0, k);
            assert(pow2(0) == 1) by {
                vstd::arithmetic::power::lemma_pow0(2);
            }
            lemma_div_is_ordered_by_denominator(q, 2, pow2(k) as int);
            lemma_div_is_strictly_smaller(q, 2);
            assert(q / (pow2(k) as int) < q);
            assert(false);
        }
    }
    if q == i {
        assert(pow2(0) == 1) by {
            vstd::arithmetic::power::lemma_pow0(2);
        }
        assert(i == q / (pow2(0) as int));
    }
}

/// The table slot of every value `v` in `1..=n` holds the last position of
/// `v` in `s` (0 when `v` never occurs).
pub open spec fn table_filled(slots: Seq<usize>, s: Seq<usize>) -> bool {
    forall|v: int| 1 <= v <= s.len() ==> #[trigger] slots[v] as int == last_position_of(s, v)
}

/// The verdict read off a filled table: every target index in `1..=n` is
/// consistent with the position its slot records.
pub open spec fn table_verdict(slots: Seq<usize>, n: int) -> bool {
    forall|i: int| 1 <= i <= n ==> #[trigger] climb_consistent(slots[i] as int, i)
}

/// A vector of `len` zeroed slots.
fn zero_table(len: usize) -> (v: Vec<usize>)
    ensures
        v@.len() == len,
        forall|j: int| 0 <= j < len ==> v@[j] == 0,
{
    let mut v: Vec<usize> = Vec::new();
    let mut j: usize = 0;
    while j < len
        invariant
            j <= len,
            v@.len() == j,
            forall|t: int| 0 <= t < j ==> v@[t] == 0,
        decreases len - j,
    {
        v.push(0);
        j += 1;
    }
    v
}

/// Splitting off the last element of a strict prefix: the positions
/// recorded after `j + 1` entries are those after `j` entries, except that
/// the value `s[j]` now points at position `j + 1`.
proof fn lemma_last_position_take_step(s: Seq<usize>, j: int, v: int)
    requires
        0 <= j < s.len(),
    ensures
        last_position_of(s.take(j + 1), v) == if s[j] as int == v {
            j + 1
        } else {
            last_position_of(s.take(j), v)
        },
{
    assert(s.take(j + 1).drop_last() =~= s.take(j));
}

/// Fills the position table from the case sequence: slot `vals[j]` is set
/// to the 1-based position `j + 1`, later occurrences overwriting earlier
/// ones. Slots of values that never occur keep their old contents.
fn fill_table(slots: &mut Vec<usize>, vals: &Vec<usize>)
    requires
        vals@.len() < old(slots)@.len(),
        values_in_range(vals@),
        forall|v: int| 1 <= v <= vals@.len() ==> old(slots)@[v] == 0,
    ensures
        final(slots)@.len() == old(slots)@.len(),
        table_filled(final(slots)@, vals@),
        forall|idx: int|
            0 <= idx < old(slots)@.len() && !(1 <= idx <= vals@.len())
                ==> final(slots)@[idx] == old(slots)@[idx],
{
    let n = vals.len();
    let mut j: usize = 0;
    while j < n
        invariant
            j <= n,
            n == vals@.len(),
            n < slots@.len(),
            values_in_range(vals@),
            forall|v: int|
                1 <= v <= n ==> #[trigger] slots@[v] as int == last_position_of(
                    vals@.take(j as int),
                    v,
                ),
            forall|idx: int|
                0 <= idx < slots@.len() && !(1 <= idx <= n) ==> slots@[idx] == old(slots)@[idx],
            slots@.len() == old(slots)@.len(),
        decreases n - j,
    {
        let v = vals[j];
        slots.set(v, j + 1);
        proof {
            assert forall|w: int| 1 <= w <= n implies #[trigger] slots@[w] as int
                == last_position_of(vals@.take(j + 1), w) by {
                lemma_last_position_take_step(vals@, j as int, w);
            }
        }
        j += 1;
    }
    proof {
        assert(vals@.take(n as int) =~= vals@);
    }
}

/// Reads the verdict off a filled table by climbing from each recorded
/// position.
fn scan_table(slots: &Vec<usize>, n: usize) -> (r: bool)
    requires
        n < slots@.len(),
        n <= MAX_CASE_LEN,
        forall|i: int| 1 <= i <= n ==> #[trigger] slots@[i] as int <= n,
    ensures
        r == table_verdict(slots@, n as int),
{
    let mut i: usize = 1;
    while i <= n
        invariant
            1 <= i <= n + 1,
            n < slots@.len(),
            n <= MAX_CASE_LEN,
            forall|t: int| 1 <= t <= n ==> #[trigger] slots@[t] as int <= n,
            forall|t: int| 1 <= t < i ==> #[trigger] climb_consistent(slots@[t] as int, t),
        decreases n - i + 1,
    {
        if !climb(slots[i], i) {
            assert(!climb_consistent(slots@[i as int] as int, i as int));
            return false;
        }
        i += 1;
    }
    true
}

/// Zeroes the slots of all values in `1..=n`, restoring a cleared table
/// after a case of length `n`.
fn clear_table(slots: &mut Vec<usize>, n: usize)
    requires
        n < old(slots)@.len(),
        n <= MAX_CASE_LEN,
    ensures
        final(slots)@.len() == old(slots)@.len(),
        forall|v: int| 1 <= v <= n ==> final(slots)@[v] == 0,
        forall|idx: int|
            0 <= idx < old(slots)@.len() && !(1 <= idx <= n)
                ==> final(slots)@[idx] == old(slots)@[idx],
{
    let mut v: usize = 1;
    while v <= n
        invariant
            1 <= v <= n + 1,
            n <= MAX_CASE_LEN,
            n < slots@.len(),
            slots@.len() == old(slots)@.len(),
            forall|w: int| 1 <= w < v ==> slots@[w] == 0,
            forall|idx: int|
                0 <= idx < slots@.len() && !(1 <= idx < v) ==> slots@[idx] == old(slots)@[idx],
        decreases n - v + 1,
    {
        slots.set(v, 0);
        v += 1;
    }
}

/// A filled table and the sequence it was filled from agree on the
/// verdict.
proof fn lemma_table_verdict_is_heap_verdict(slots: Seq<usize>, s: Seq<usize>)
    requires
        table_filled(slots, s),
    ensures
        table_verdict(slots, s.len() as int) == heap_verdict(s),
{
    if table_verdict(slots, s.len() as int) {
        assert forall|i: int| 1 <= i <= s.len() implies #[trigger] climb_consistent(
            last_position_of(s, i),
            i,
        ) by {
            assert(climb_consistent(slots[i] as int, i));
            assert(slots[i] as int == last_position_of(s, i));
        }
    }
    if heap_verdict(s) {
        assert forall|i: int| 1 <= i <= s.len() implies #[trigger] climb_consistent(
            slots[i] as int,
            i,
        ) by {
            assert(climb_consistent(last_position_of(s, i), i));
            assert(slots[i] as int == last_position_of(s, i));
        }
    }
}

/// The verdict for one case, using a fresh position table sized to the
/// case. The input is only read; the verdict is a function of the input
/// sequence alone.
pub fn check_case(vals: &Vec<usize>) -> (r: bool)
    requires
        vals@.len() <= MAX_CASE_LEN,
        values_in_range(vals@),
    ensures
        r == heap_verdict(vals@),
{
    let n = vals.len();
    let mut slots = zero_table(n + 1);
    fill_table(&mut slots, vals);
    proof {
        lemma_table_verdict_is_heap_verdict(slots@, vals@);
        assert forall|i: int| 1 <= i <= n implies #[trigger] slots@[i] as int <= n by {
            lemma_last_position_bounded(vals@, i);
        }
    }
    scan_table(&slots, n)
}

/// The last position of any value lies in `0..=s.len()`.
proof fn lemma_last_position_bounded(s: Seq<usize>, v: int)
    ensures
        0 <= last_position_of(s, v) <= s.len(),
    decreases s.len(),
{
    if s.len() > 0 && s[s.len() - 1] as int != v {
        lemma_last_position_bounded(s.drop_last(), v);
    }
}

/// A caller-owned scratch position table, sized once at [`TABLE_SIZE`] and
/// reused across test cases. Between cases every slot is zero, so the
/// verdict of a case never depends on the cases run before it.
pub struct PositionTable {
    slots: Vec<usize>,
}

impl PositionTable {
    /// The table is cleared: full capacity, every slot zero.
    pub closed spec fn wf(&self) -> bool {
        &&& self.slots@.len() == TABLE_SIZE
        &&& forall|v: int| 0 <= v < TABLE_SIZE ==> self.slots@[v] == 0
    }

    /// A fresh, cleared table.
    pub fn new() -> (t: Self)
        ensures
            t.wf(),
    {
        PositionTable { slots: zero_table(TABLE_SIZE) }
    }

    /// The verdict for one case, reusing this table as scratch space. The
    /// verdict is a function of `vals` alone — in particular it is the
    /// same verdict [`check_case`] gives with a fresh table — and the
    /// table is cleared again afterwards, so no state leaks into the next
    /// case.
    pub fn check_case(&mut self, vals: &Vec<usize>) -> (r: bool)
        requires
            old(self).wf(),
            vals@.len() <= MAX_CASE_LEN,
            values_in_range(vals@),
        ensures
            final(self).wf(),
            r == heap_verdict(vals@),
    {
        let n = vals.len();
        fill_table(&mut self.slots, vals);
        proof {
            lemma_table_verdict_is_heap_verdict(self.slots@, vals@);
            assert forall|i: int| 1 <= i <= n implies #[trigger] self.slots@[i] as int <= n by {
                lemma_last_position_bounded(vals@, i);
            }
        }
        let verdict = scan_table(&self.slots, n);
        clear_table(&mut self.slots, n);
        verdict
    }
}

/// The error a strict run reports when its input is not a permutation of
/// `1..=n` (or is longer than the table's capacity).
#[derive(Debug, PartialEq, Eq, Structural)]
pub enum CheckError {
    InvalidInput,
}

/// The verdict for one case, first validating the input: the sequence
/// must fit the table and be a permutation of `1..=n` (every value in
/// range and no value twice); otherwise `InvalidInput` is reported and
/// nothing is checked.
pub fn check_case_strict(vals: &Vec<usize>) -> (r: Result<bool, CheckError>)
    ensures
        r is Ok <==> vals@.len() <= MAX_CASE_LEN && is_permutation(vals@),
        r is Ok ==> r->Ok_0 == heap_verdict(vals@),
        r is Err ==> r->Err_0 == CheckError::InvalidInput,
{
    let n = vals.len();
    if n > MAX_CASE_LEN {
        return Err(CheckError::InvalidInput);
    }
    let mut seen = zero_table(n + 1);
    let mut j: usize = 0;
    while j < n
        invariant
            j <= n,
            n == vals@.len(),
            n <= MAX_CASE_LEN,
            seen@.len() == n + 1,
            forall|j2: int| 0 <= j2 < j ==> 1 <= #[trigger] vals@[j2] <= n,
            forall|j2: int, k2: int| 0 <= j2 < k2 < j ==> vals@[j2] != vals@[k2],
            forall|v: int|
                0 <= v <= n ==> ((#[trigger] seen@[v] != 0) <==> exists|j2: int|
                    0 <= j2 < j && vals@[j2] as int == v),
        decreases n - j,
    {
        let v = vals[j];
        if v < 1 || v > n {
            assert(!values_in_range(vals@));
            return Err(CheckError::InvalidInput);
        }
        if seen[v] != 0 {
            proof {
                let j2 = choose|j2: int| 0 <= j2 < j && vals@[j2] as int == v as int;
                assert(vals@[j2] == vals@[j as int]);
            }
            return Err(CheckError::InvalidInput);
        }
        seen.set(v, 1);
        j += 1;
    }
    Ok(check_case(vals))
}

/// Every identity placement is consistent: when each value sits at its own
/// index (`s[j] == j + 1` for all `j`), the verdict is YES.
pub proof fn lemma_identity_verdict(s: Seq<usize>)
    requires
        forall|j: int| 0 <= j < s.len() ==> #[trigger] s[j] as int == j + 1,
    ensures
        heap_verdict(s),
{
    assert forall|i: int| 1 <= i <= s.len() implies #[trigger] climb_consistent(
        last_position_of(s, i),
        i,
    ) by {
        lemma_identity_position(s, i);
    }
}

/// In an identity placement, every value in `1..=n` is recorded at its own
/// index.
proof fn lemma_identity_position(s: Seq<usize>, v: int)
    requires
        forall|j: int| 0 <= j < s.len() ==> #[trigger] s[j] as int == j + 1,
        1 <= v <= s.len(),
    ensures
        last_position_of(s, v) == v,
    decreases s.len(),
{
    if v == s.len() {
    } else {
        assert(s.drop_last() =~= s.take(s.len() - 1));
        lemma_identity_position(s.drop_last(), v);
    }
}

/// Checking a case is repeatable: two runs over one and the same
/// sequence agree, because each verdict is determined by the sequence
/// alone and the sequence is only ever read.
pub proof fn lemma_verdict_idempotent(s: Seq<usize>, first: bool, second: bool)
    requires
        first == heap_verdict(s),
        second == heap_verdict(s),
    ensures
        first == second,
{
}

} // verus!
