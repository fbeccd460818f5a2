//! Decoding Prüfer sequences: a validated sequence of `n` values over
//! `1..=n+2` determines a labeled tree on `n+2` vertices; this module turns
//! the sequence into that tree's edge list.

use vstd::prelude::*;

verus! {

/// Occurrences of `v` in `s`.
pub open spec fn count_occ(s: Seq<u64>, v: int) -> int
    decreases s.len(),
{
    if s.len() == 0 {
        0
    } else {
        (if s[0] == v {
            1int
        } else {
            0int
        }) + count_occ(s.drop_first(), v)
    }
}

/// Index of the first zero at or after `i`, or `s.len()` if there is none.
pub open spec fn first_zero_from(s: Seq<i64>, i: int) -> int
    decreases s.len() - i,
{
    if i < 0 || i >= s.len() {
        s.len() as int
    } else if s[i] == 0 {
        i
    } else {
        first_zero_from(s, i + 1)
    }
}

/// Entries below zero among the first `j`.
pub open spec fn num_neg_upto(s: Seq<i64>, j: int) -> int
    decreases j,
{
    if j <= 0 {
        0
    } else {
        num_neg_upto(s, j - 1) + (if s[j - 1] < 0 {
            1int
        } else {
            0int
        })
    }
}

/// Zero entries among the first `j`.
pub open spec fn num_zero_upto(s: Seq<i64>, j: int) -> int
    decreases j,
{
    if j <= 0 {
        0
    } else {
        num_zero_upto(s, j - 1) + (if s[j - 1] == 0 {
            1int
        } else {
            0int
        })
    }
}

/// Positive entries among the first `j`.
pub open spec fn num_pos_upto(s: Seq<i64>, j: int) -> int
    decreases j,
{
    if j <= 0 {
        0
    } else {
        num_pos_upto(s, j - 1) + (if s[j - 1] > 0 {
            1int
        } else {
            0int
        })
    }
}

/// Sum of the nonnegative entries among the first `j`.
pub open spec fn sum_pos_upto(s: Seq<i64>, j: int) -> int
    decreases j,
{
    if j <= 0 {
        0
    } else {
        sum_pos_upto(s, j - 1) + (if s[j - 1] > 0 {
            s[j - 1] as int
        } else {
            0int
        })
    }
}

/// Occurrences of the vertex labels `1..=j` in `s`, summed.
pub open spec fn sum_occ_upto(s: Seq<u64>, j: int) -> int
    decreases j,
{
    if j <= 0 {
        0
    } else {
        sum_occ_upto(s, j - 1) + count_occ(s, j)
    }
}

/// The three sign classes partition the entries.
pub proof fn lemma_partition(s: Seq<i64>, j: int)
    requires
        0 <= j <= s.len(),
    ensures
        num_neg_upto(s, j) + num_zero_upto(s, j) + num_pos_upto(s, j) == j,
    decreases j,
{
    if j > 0 {
        lemma_partition(s, j - 1);
    }
}

/// Each positive entry contributes at least one to the positive sum.
pub proof fn lemma_pos_le_sum(s: Seq<i64>, j: int)
    requires
        0 <= j <= s.len(),
    ensures
        num_pos_upto(s, j) <= sum_pos_upto(s, j),
    decreases j,
{
    if j > 0 {
        lemma_pos_le_sum(s, j - 1);
    }
}

/// Every value of a valid sequence lands in exactly one label's count.
pub proof fn lemma_total_count(s: Seq<u64>, n: int)
    requires
        forall|i: int| 0 <= i < s.len() ==> 1 <= #[trigger] s[i] <= n,
    ensures
        sum_occ_upto(s, n) == s.len(),
    decreases s.len(),
{
    if s.len() == 0 {
        lemma_sum_occ_empty(s, n);
    } else {
        assert(forall|i: int|
            0 <= i < s.drop_first().len() ==> s.drop_first()[i] == s[i + 1]);
        lemma_total_count(s.drop_first(), n);
        lemma_sum_occ_step(s, n, s[0] as int);
    }
}

/// The summed counts of an empty sequence vanish.
proof fn lemma_sum_occ_empty(s: Seq<u64>, j: int)
    requires
        s.len() == 0,
    ensures
        sum_occ_upto(s, j) == 0,
    decreases j,
{
    if j > 0 {
        lemma_sum_occ_empty(s, j - 1);
    }
}

/// Dropping the first value lowers exactly its label's count by one.
proof fn lemma_sum_occ_step(s: Seq<u64>, j: int, v: int)
    requires
        s.len() > 0,
        s[0] == v,
        1 <= v,
    ensures
        sum_occ_upto(s, j) == sum_occ_upto(s.drop_first(), j) + (if v <= j {
            1int
        } else {
            0int
        }),
    decreases j,
{
    if j > 0 {
        lemma_sum_occ_step(s, j - 1, v);
    }
}

/// If no prefix entry is zero, the zero count of the prefix vanishes; and a
/// positive zero count yields a zero entry.
pub proof fn lemma_num_zero_exists(s: Seq<i64>, j: int)
    requires
        0 <= j <= s.len(),
    ensures
        num_zero_upto(s, j) > 0 ==> exists|i: int| 0 <= i < j && s[i] == 0,
        num_zero_upto(s, j) <= j,
    decreases j,
{
    if j > 0 {
        lemma_num_zero_exists(s, j - 1);
    }
}

/// The first zero is a zero, nothing before it is, and it exists whenever
/// any zero does.
pub proof fn lemma_first_zero(s: Seq<i64>, i: int)
    requires
        0 <= i <= s.len(),
    ensures
        i <= first_zero_from(s, i) <= s.len(),
        first_zero_from(s, i) < s.len() ==> s[first_zero_from(s, i)] == 0,
        forall|j: int| i <= j < first_zero_from(s, i) ==> s[j] != 0,
    decreases s.len() - i,
{
    if i < s.len() && s[i] != 0 {
        lemma_first_zero(s, i + 1);
    }
}

/// A zero at or after `i` bounds the first zero.
pub proof fn lemma_first_zero_hits(s: Seq<i64>, i: int, z: int)
    requires
        0 <= i <= z < s.len(),
        s[z] == 0,
    ensures
        first_zero_from(s, i) <= z,
    decreases z - i,
{
    if i < z && s[i] != 0 {
        lemma_first_zero_hits(s, i + 1, z);
    }
}

/// The decoder's running state: per-label counters (`-1` marks a used leaf)
/// and the edges produced so far.
#[verifier::ext_equal]
pub struct DecodeState {
    pub counts: Seq<i64>,
    pub edges: Seq<(u64, u64)>,
}

/// One decoding step for the next sequence value: the lowest label whose
/// counter is zero is a leaf; it is attached to the value, marked used, and
/// the value's counter drops by one.  With no zero counter the step changes
/// nothing; a valid sequence never reaches that.
pub open spec fn spec_step(st: DecodeState, value: u64) -> DecodeState {
    let j = first_zero_from(st.counts, 0);
    if j == st.counts.len() {
        st
    } else {
        let after_mark = st.counts.update(j, -1 as i64);
        DecodeState {
            counts: after_mark.update(
                value - 1,
                (after_mark[value - 1] - 1) as i64,
            ),
            edges: st.edges.push(((j + 1) as u64, value)),
        }
    }
}

/// The state after the first `k` sequence values, starting from the
/// occurrence counts of the whole sequence over `n` labels.
pub open spec fn spec_run(code: Seq<u64>, n: int, k: int) -> DecodeState
    decreases k,
{
    if k <= 0 {
        DecodeState {
            counts: Seq::new(n as nat, |j: int| count_occ(code, j + 1) as i64),
            edges: Seq::empty(),
        }
    } else {
        spec_step(spec_run(code, n, k - 1), code[k - 1])
    }
}

/// The closing edge: the two lowest labels whose counters are still zero.
pub open spec fn spec_last_pair(counts: Seq<i64>) -> (u64, u64) {
    let z1 = first_zero_from(counts, 0);
    let z2 = first_zero_from(counts, z1 + 1);
    ((z1 + 1) as u64, (z2 + 1) as u64)
}

/// The edge list a valid sequence decodes to: one edge per sequence value,
/// then the closing edge between the last two leaves.
pub open spec fn spec_tree_edges(code: Seq<u64>) -> Seq<(u64, u64)> {
    let n = code.len() + 2;
    let fin = spec_run(code, n as int, code.len() as int);
    fin.edges.push(spec_last_pair(fin.counts))
}

/// Every value is a vertex label: at least 1, at most the sequence length
/// plus two.
pub open spec fn valid_code(code: Seq<u64>) -> bool {
    forall|i: int| 0 <= i < code.len() ==> 1 <= #[trigger] code[i] <= code.len() + 2
}

/// Index of the first zero, in executable form.
fn find_first_zero(v: &Vec<i64>, start: usize) -> (r: Option<usize>)
    requires
        start <= v@.len(),
    ensures
        match r {
            Some(j) => j == first_zero_from(v@, start as int) && j < v@.len(),
            None => first_zero_from(v@, start as int) == v@.len(),
        },
{
    let mut j = start;
    while j < v.len()
        invariant
            start <= j <= v@.len(),
            forall|i: int| start <= i < j ==> v@[i] != 0,
        decreases v@.len() - j,
    {
        if v[j] == 0 {
            proof {
                lemma_first_zero_unique(v@, start as int, j as int);
            }
            return Some(j);
        }
        j += 1;
    }
    proof {
        lemma_first_zero(v@, start as int);
        if first_zero_from(v@, start as int) < v@.len() {
            assert(v@[first_zero_from(v@, start as int)] == 0);
            assert(false);
        }
    }
    None
}

/// A zero with no zero before it is the first zero.
proof fn lemma_first_zero_unique(s: Seq<i64>, i: int, z: int)
    requires
        0 <= i <= z < s.len(),
        s[z] == 0,
        forall|j: int| i <= j < z ==> s[j] != 0,
    ensures
        first_zero_from(s, i) == z,
    decreases z - i,
{
    if i < z {
        lemma_first_zero_unique(s, i + 1, z);
    }
}

/// Counting one more value raises exactly its label's counter.
pub proof fn lemma_count_take_snoc(s: Seq<u64>, k: int, v: int)
    requires
        0 <= k < s.len(),
    ensures
        count_occ(s.take(k + 1), v) == count_occ(s.take(k), v) + (if s[k] == v {
            1int
        } else {
            0int
        }),
    decreases k,
{
    if k == 0 {
        assert(s.take(1).drop_first() =~= Seq::<u64>::empty());
        assert(s.take(0) =~= Seq::<u64>::empty());
        assert(s.take(1)[0] == s[0]);
    } else {
        lemma_count_take_snoc(s.drop_first(), k - 1, v);
        assert(s.take(k + 1).drop_first() =~= s.drop_first().take(k));
        assert(s.take(k).drop_first() =~= s.drop_first().take(k - 1));
        assert(s.take(k + 1)[0] == s[0]);
        assert(s.take(k)[0] == s[0]);
        assert(s.drop_first()[k - 1] == s[k]);
    }
}

/// A whole sequence is its own full prefix.
pub proof fn lemma_count_take_all(s: Seq<u64>, v: int)
    ensures
        count_occ(s.take(s.len() as int), v) == count_occ(s, v),
{
    assert(s.take(s.len() as int) =~= s);
}

/// Skipping one more value lowers exactly its label's counter.
pub proof fn lemma_count_skip_step(s: Seq<u64>, k: int, v: int)
    requires
        0 <= k < s.len(),
    ensures
        count_occ(s.skip(k as int), v) == count_occ(s.skip(k + 1), v) + (if s[k] == v {
            1int
        } else {
            0int
        }),
{
    assert(s.skip(k as int)[0] == s[k]);
    assert(s.skip(k as int).drop_first() =~= s.skip(k + 1));
}

/// Counts are never negative and never exceed the sequence length.
pub proof fn lemma_count_bounds(s: Seq<u64>, v: int)
    ensures
        0 <= count_occ(s, v) <= s.len(),
    decreases s.len(),
{
    if s.len() > 0 {
        lemma_count_bounds(s.drop_first(), v);
    }
}


/// Index of the first out-of-range value, or `s.len()` if the whole sequence
/// is valid.
pub open spec fn first_invalid(s: Seq<u64>) -> int {
    first_invalid_from(s, 0)
}

pub open spec fn first_invalid_from(s: Seq<u64>, i: int) -> int
    decreases s.len() - i,
{
    if i < 0 || i >= s.len() {
        s.len() as int
    } else if s[i] == 0 || s[i] > s.len() + 2 {
        i
    } else {
        first_invalid_from(s, i + 1)
    }
}

/// The first invalid value is invalid, everything before it is in range, and
/// a fully scanned sequence is valid.
pub proof fn lemma_first_invalid(s: Seq<u64>, i: int)
    requires
        0 <= i <= s.len(),
    ensures
        i <= first_invalid_from(s, i) <= s.len(),
        first_invalid_from(s, i) < s.len() ==> (s[first_invalid_from(s, i)] == 0
            || s[first_invalid_from(s, i)] > s.len() + 2),
        forall|j: int|
            i <= j < first_invalid_from(s, i) ==> 1 <= #[trigger] s[j] <= s.len() + 2,
    decreases s.len() - i,
{
    if i < s.len() && !(s[i] == 0 || s[i] > s.len() + 2) {
        lemma_first_invalid(s, i + 1);
    }
}

/// Describes a sequence that cannot be a Prüfer code: it holds a zero, or a
/// value larger than its length plus two.
#[derive(Debug)]
pub enum InvalidPruferCode {
    ValueTooLarge { invalid_value: u64, code: Vec<u64> },
    ValueIsZero { code: Vec<u64> },
}

/// Whether two value lists hold the same values.
fn vec_u64_eq(a: &Vec<u64>, b: &Vec<u64>) -> (r: bool)
    ensures
        r == (a@ == b@),
{
    if a.len() != b.len() {
        proof {
            assert(a@.len() != b@.len());
        }
        return false;
    }
    let mut i: usize = 0;
    while i < a.len()
        invariant
            i <= a@.len(),
            a@.len() == b@.len(),
            forall|j: int| 0 <= j < i ==> a@[j] == b@[j],
        decreases a@.len() - i,
    {
        if a[i] != b[i] {
            proof {
                assert(a@[i as int] != b@[i as int]);
            }
            return false;
        }
        i += 1;
    }
    proof {
        assert(a@ =~= b@);
    }
    true
}

impl PartialEq for InvalidPruferCode {
    /// Two descriptions are equal when they name the same failure over the
    /// same sequence.
    fn eq(&self, other: &Self) -> (r: bool) {
        match (self, other) {
            (
                InvalidPruferCode::ValueTooLarge { invalid_value: a, code: c1 },
                InvalidPruferCode::ValueTooLarge { invalid_value: b, code: c2 },
            ) => *a == *b && vec_u64_eq(c1, c2),
            (
                InvalidPruferCode::ValueIsZero { code: c1 },
                InvalidPruferCode::ValueIsZero { code: c2 },
            ) => vec_u64_eq(c1, c2),
            _ => false,
        }
    }
}

impl Eq for InvalidPruferCode {

}

impl vstd::std_specs::cmp::PartialEqSpecImpl for InvalidPruferCode {
    open spec fn obeys_eq_spec() -> bool {
        true
    }

    open spec fn eq_spec(&self, other: &InvalidPruferCode) -> bool {
        match (self, other) {
            (
                InvalidPruferCode::ValueTooLarge { invalid_value: a, code: c1 },
                InvalidPruferCode::ValueTooLarge { invalid_value: b, code: c2 },
            ) => a == b && c1@ == c2@,
            (
                InvalidPruferCode::ValueIsZero { code: c1 },
                InvalidPruferCode::ValueIsZero { code: c2 },
            ) => c1@ == c2@,
            _ => false,
        }
    }
}

/// A validated Prüfer sequence: every value is a vertex label of the tree it
/// encodes.
#[derive(Debug)]
pub struct PruferCode {
    code: Vec<u64>,
}

impl View for PruferCode {
    type V = Seq<u64>;

    closed spec fn view(&self) -> Seq<u64> {
        self.code@
    }
}

impl PartialEq for PruferCode {
    /// Two codes are equal when they hold the same sequence.
    fn eq(&self, other: &Self) -> (r: bool) {
        vec_u64_eq(&self.code, &other.code)
    }
}

impl Eq for PruferCode {

}

impl vstd::std_specs::cmp::PartialEqSpecImpl for PruferCode {
    open spec fn obeys_eq_spec() -> bool {
        true
    }

    open spec fn eq_spec(&self, other: &PruferCode) -> bool {
        self@ == other@
    }
}

impl PruferCode {
    /// A validated sequence, with the machine bounds the decoder relies on.
    pub open spec fn wf(&self) -> bool {
        &&& valid_code(self@)
        &&& self@.len() + 2 <= usize::MAX
        &&& self@.len() <= i64::MAX
    }

    /// Validates a sequence: every value must be at least 1 and at most the
    /// length plus two.  Returns the first offending value's description,
    /// zero values before oversized ones at the same scan position.
    pub fn try_from(prufer_code: &[u64]) -> (r: Result<PruferCode, InvalidPruferCode>)
        requires
            prufer_code@.len() + 2 <= usize::MAX,
            prufer_code@.len() <= i64::MAX,
        ensures
            match r {
                Ok(c) => c@ == prufer_code@ && valid_code(prufer_code@) && c.wf(),
                Err(e) => {
                    let i = first_invalid(prufer_code@);
                    &&& !valid_code(prufer_code@)
                    &&& i < prufer_code@.len()
                    &&& if prufer_code@[i] == 0 {
                        e matches InvalidPruferCode::ValueIsZero { code } && code@ == prufer_code@
                    } else {
                        e matches InvalidPruferCode::ValueTooLarge { invalid_value, code }
                            && invalid_value == prufer_code@[i] && code@ == prufer_code@
                    }
                },
            },
    {
        let ghost s = prufer_code@;
        let n = prufer_code.len() + 2;
        let mut i: usize = 0;
        while i < prufer_code.len()
            invariant
                i <= s.len(),
                s == prufer_code@,
                n == s.len() + 2,
                forall|j: int| 0 <= j < i ==> 1 <= #[trigger] s[j] <= s.len() + 2,
            decreases s.len() - i,
        {
            let value = prufer_code[i];
            if value == 0 {
                proof {
                    lemma_first_invalid_unique(s, 0, i as int);
                }
                return Err(
                    InvalidPruferCode::ValueIsZero { code: vstd::slice::slice_to_vec(prufer_code) },
                );
            }
            if value > n as u64 {
                proof {
                    lemma_first_invalid_unique(s, 0, i as int);
                }
                return Err(
                    InvalidPruferCode::ValueTooLarge {
                        invalid_value: value,
                        code: vstd::slice::slice_to_vec(prufer_code),
                    },
                );
            }
            i += 1;
        }
        Ok(PruferCode { code: vstd::slice::slice_to_vec(prufer_code) })
    }
}

/// An invalid value with none before it is the first invalid value.
proof fn lemma_first_invalid_unique(s: Seq<u64>, i: int, z: int)
    requires
        0 <= i <= z < s.len(),
        s[z] == 0 || s[z] > s.len() + 2,
        forall|j: int| i <= j < z ==> 1 <= #[trigger] s[j] <= s.len() + 2,
    ensures
        first_invalid_from(s, i) == z,
    decreases z - i,
{
    if i < z {
        lemma_first_invalid_unique(s, i + 1, z);
    }
}

/// Everything the decoder's loop keeps true of its state after `k` steps: a
/// used label's values are gone from the rest of the sequence, an unused
/// label's counter counts exactly its remaining occurrences, `k` labels are
/// used, and the unused counters sum to the remaining length.
pub proof fn lemma_run_invariant(code: Seq<u64>, n: int, k: int)
    requires
        valid_code(code),
        n == code.len() + 2,
        0 <= k <= code.len(),
        code.len() <= i64::MAX,
    ensures
        spec_run(code, n, k).counts.len() == n,
        forall|j: int|
            0 <= j < n ==> (#[trigger] spec_run(code, n, k).counts[j] == -1 || spec_run(
                code,
                n,
                k,
            ).counts[j] == count_occ(code.skip(k), j + 1)),
        forall|j: int|
            0 <= j < n && #[trigger] spec_run(code, n, k).counts[j] == -1 ==> count_occ(
                code.skip(k),
                j + 1,
            ) == 0,
        forall|j: int|
            0 <= j < n ==> #[trigger] spec_run(code, n, k).counts[j] >= -1,
        num_neg_upto(spec_run(code, n, k).counts, n) == k,
        sum_pos_upto(spec_run(code, n, k).counts, n) == code.len() - k,
        spec_run(code, n, k).edges.len() == k,
    decreases k,
{
    if k == 0 {
        let st = spec_run(code, n, 0);
        assert(code.skip(0) =~= code);
        assert forall|j: int| 0 <= j < n implies #[trigger] st.counts[j] == count_occ(
            code.skip(0),
            j + 1,
        ) && st.counts[j] >= 0 by {
            lemma_count_bounds(code, j + 1);
        }
        lemma_counts_zero_init(code, n, n);
        lemma_total_count(code.skip(0), n);
    } else {
        lemma_run_invariant(code, n, k - 1);
        let st = spec_run(code, n, k - 1);
        let v = code[k - 1];
        let vi = v - 1;
        assert(1 <= v <= n);
        lemma_count_bounds(code.skip(k - 1), vi + 1);
        assert(count_occ(code.skip(k - 1), vi + 1) >= 1) by {
            lemma_count_at_least_one(code, k - 1);
        }
        assert(st.counts[vi as int] != -1);
        assert(st.counts[vi as int] == count_occ(code.skip(k - 1), vi + 1));
        assert(st.counts[vi as int] >= 1);
        // a zero entry exists, so the step takes its real branch
        lemma_partition(st.counts, n);
        lemma_pos_le_sum(st.counts, n);
        assert(num_zero_upto(st.counts, n) >= 2);
        lemma_num_zero_exists(st.counts, n);
        let z = choose|i: int| 0 <= i < n && st.counts[i] == 0;
        lemma_first_zero_hits(st.counts, 0, z);
        lemma_first_zero(st.counts, 0);
        let j = first_zero_from(st.counts, 0);
        assert(j < n);
        assert(st.counts[j] == 0);
        assert(j != vi);
        let after_mark = st.counts.update(j, -1 as i64);
        let st2 = spec_step(st, v);
        assert(st2.counts == after_mark.update(vi as int, (after_mark[vi as int] - 1) as i64));
        assert forall|w: int| 0 <= w < n implies (#[trigger] st2.counts[w] == -1 || st2.counts[w]
            == count_occ(code.skip(k), w + 1)) && (st2.counts[w] == -1 ==> count_occ(
            code.skip(k),
            w + 1,
        ) == 0) && st2.counts[w] >= -1 by {
            lemma_count_skip_step(code, k - 1, w + 1);
            lemma_count_bounds(code.skip(k), w + 1);
            if w == j {
                assert(st2.counts[w] == -1);
                assert(count_occ(code.skip(k - 1), j + 1) == 0);
            } else if w == vi {
                assert(st2.counts[w] == count_occ(code.skip(k - 1), vi + 1) - 1);
            } else {
                assert(st2.counts[w] == st.counts[w]);
            }
        }
        lemma_num_neg_update(st.counts, n, j, -1 as i64);
        lemma_sum_pos_update(st.counts, n, j, -1 as i64);
        lemma_num_neg_update(after_mark, n, vi as int, (after_mark[vi as int] - 1) as i64);
        lemma_sum_pos_update(after_mark, n, vi as int, (after_mark[vi as int] - 1) as i64);
    }
}

/// The next value of the sequence still occurs in its own remainder.
proof fn lemma_count_at_least_one(code: Seq<u64>, k: int)
    requires
        0 <= k < code.len(),
    ensures
        count_occ(code.skip(k), code[k] as int) >= 1,
{
    assert(code.skip(k)[0] == code[k]);
    lemma_count_bounds(code.skip(k).drop_first(), code[k] as int);
}

/// With all counters nonnegative, none of the first `j` is negative.
proof fn lemma_counts_zero_init(code: Seq<u64>, n: int, j: int)
    requires
        0 <= j <= n,
        forall|i: int|
            0 <= i < n ==> #[trigger] spec_run(code, n, 0).counts[i] == count_occ(
                code.skip(0),
                i + 1,
            ),
    ensures
        num_neg_upto(spec_run(code, n, 0).counts, j) == 0,
        sum_pos_upto(spec_run(code, n, 0).counts, j) == sum_occ_upto(code.skip(0), j),
    decreases j,
{
    if j > 0 {
        lemma_counts_zero_init(code, n, j - 1);
        lemma_count_bounds(code.skip(0), j);
    }
}

/// How one update changes the negative count.
proof fn lemma_num_neg_update(s: Seq<i64>, j: int, i: int, x: i64)
    requires
        0 <= i < s.len(),
        0 <= j <= s.len(),
    ensures
        num_neg_upto(s.update(i, x), j) == num_neg_upto(s, j) + (if i < j {
            (if x < 0 {
                1int
            } else {
                0int
            }) - (if s[i] < 0 {
                1int
            } else {
                0int
            })
        } else {
            0int
        }),
    decreases j,
{
    if j > 0 {
        lemma_num_neg_update(s, j - 1, i, x);
    }
}

/// How one update changes the positive sum.
proof fn lemma_sum_pos_update(s: Seq<i64>, j: int, i: int, x: i64)
    requires
        0 <= i < s.len(),
        0 <= j <= s.len(),
    ensures
        sum_pos_upto(s.update(i, x), j) == sum_pos_upto(s, j) + (if i < j {
            (if x > 0 {
                x as int
            } else {
                0int
            }) - (if s[i] > 0 {
                s[i] as int
            } else {
                0int
            })
        } else {
            0int
        }),
    decreases j,
{
    if j > 0 {
        lemma_sum_pos_update(s, j - 1, i, x);
    }
}

/// Calculates the edge set of a valid Prüfer sequence: the lowest remaining
/// leaf label is attached to each sequence value in turn, and the two labels
/// left over close the tree.
pub fn tree_edges(code: &PruferCode) -> (r: Vec<(u64, u64)>)
    requires
        code.wf(),
    ensures
        r@ == spec_tree_edges(code@),
{
    let ghost s = code@;
    let prufer_code = &code.code;
    let len = prufer_code.len();
    let vertices = len + 2;
    let ghost n = vertices as int;
    let mut vertex_set: Vec<i64> = Vec::new();
    let mut f: usize = 0;
    while f < vertices
        invariant
            f <= vertices,
            vertex_set@.len() == f,
            forall|j: int| 0 <= j < f ==> #[trigger] vertex_set@[j] == 0,
        decreases vertices - f,
    {
        vertex_set.push(0);
        f += 1;
    }
    // count the occurrence of each vertex label
    let mut k: usize = 0;
    while k < len
        invariant
            k <= len,
            s == code@,
            len == s.len(),
            code.wf(),
            prufer_code@ == s,
            vertices == len + 2,
            vertex_set@.len() == vertices,
            forall|j: int|
                0 <= j < vertices ==> #[trigger] vertex_set@[j] == count_occ(
                    s.take(k as int),
                    j + 1,
                ),
        decreases len - k,
    {
        let value = prufer_code[k];
        let index = (value - 1) as usize;
        proof {
            lemma_count_take_snoc(s, k as int, index + 1);
            lemma_count_bounds(s.take(k as int), index + 1);
            assert(count_occ(s.take(k as int), index + 1) <= k);
            assert forall|j: int|
                0 <= j < vertices && j != index implies #[trigger] vertex_set@.update(
                index as int,
                (vertex_set@[index as int] + 1) as i64,
            )[j] == count_occ(s.take(k + 1), j + 1) by {
                lemma_count_take_snoc(s, k as int, j + 1);
            }
        }
        vertex_set[index] = vertex_set[index] + 1;
        k += 1;
    }
    proof {
        assert forall|j: int|
            0 <= j < vertices implies #[trigger] vertex_set@[j] == count_occ(s, j + 1) by {
            lemma_count_take_all(s, j + 1);
        }
        assert(vertex_set@ =~= spec_run(s, n, 0).counts);
    }
    let mut edges: Vec<(u64, u64)> = Vec::new();
    let mut k: usize = 0;
    while k < len
        invariant
            k <= len,
            s == code@,
            len == s.len(),
            code.wf(),
            prufer_code@ == s,
            vertices == len + 2,
            n == vertices as int,
            vertex_set@ == spec_run(s, n, k as int).counts,
            edges@ == spec_run(s, n, k as int).edges,
        decreases len - k,
    {
        let value = prufer_code[k];
        proof {
            lemma_run_invariant(s, n, k as int);
            lemma_partition(vertex_set@, n);
            lemma_pos_le_sum(vertex_set@, n);
            assert(num_zero_upto(vertex_set@, n) >= 2);
            lemma_num_zero_exists(vertex_set@, n);
            let z = choose|i: int| 0 <= i < n && vertex_set@[i] == 0;
            lemma_first_zero_hits(vertex_set@, 0, z);
        }
        match find_first_zero(&vertex_set, 0) {
            Some(j) => {
                proof {
                    lemma_count_at_least_one(s, k as int);
                    assert(vertex_set@[value - 1] == count_occ(s.skip(k as int), value as int));
                }
                vertex_set[j] = -1;
                edges.push(((j + 1) as u64, value));
                let index = (value - 1) as usize;
                vertex_set[index] = vertex_set[index] - 1;
            },
            None => {
                proof {
                    assert(false);
                }
            },
        }
        k += 1;
    }
    // the last two leaves close the tree
    proof {
        lemma_run_invariant(s, n, len as int);
        lemma_partition(vertex_set@, n);
        lemma_pos_le_sum(vertex_set@, n);
        assert(num_zero_upto(vertex_set@, n) >= 2);
        lemma_num_zero_exists(vertex_set@, n);
        let z = choose|i: int| 0 <= i < n && vertex_set@[i] == 0;
        lemma_first_zero_hits(vertex_set@, 0, z);
        lemma_first_zero(vertex_set@, 0);
    }
    let j1 = match find_first_zero(&vertex_set, 0) {
        Some(j) => j,
        None => {
            proof {
                assert(false);
            }
            0
        },
    };
    proof {
        lemma_zero_after(vertex_set@, n, j1 as int);
    }
    let j2 = match find_first_zero(&vertex_set, j1 + 1) {
        Some(j) => j,
        None => {
            proof {
                assert(false);
            }
            0
        },
    };
    edges.push(((j1 + 1) as u64, (j2 + 1) as u64));
    edges
}

/// With at least two zero counters, another zero follows the first.
proof fn lemma_zero_after(s: Seq<i64>, n: int, j1: int)
    requires
        n == s.len(),
        num_zero_upto(s, n) >= 2,
        0 <= j1 < n,
        s[j1] == 0,
        forall|j: int| 0 <= j < j1 ==> s[j] != 0,
    ensures
        first_zero_from(s, j1 + 1) < n,
{
    lemma_num_zero_prefix(s, j1);
    assert(num_zero_upto(s, j1 + 1) == 1);
    lemma_num_zero_range_exists(s, j1 + 1, n);
    let z = choose|i: int| j1 + 1 <= i < n && s[i] == 0;
    lemma_first_zero_hits(s, j1 + 1, z);
}

/// A prefix without zeros counts none.
proof fn lemma_num_zero_prefix(s: Seq<i64>, j: int)
    requires
        0 <= j <= s.len(),
        forall|i: int| 0 <= i < j ==> s[i] != 0,
    ensures
        num_zero_upto(s, j) == 0,
    decreases j,
{
    if j > 0 {
        lemma_num_zero_prefix(s, j - 1);
    }
}

/// A zero count over a range yields a witness in the range.
proof fn lemma_num_zero_range_exists(s: Seq<i64>, a: int, b: int)
    requires
        0 <= a <= b <= s.len(),
        num_zero_upto(s, b) > num_zero_upto(s, a),
    ensures
        exists|i: int| a <= i < b && s[i] == 0,
    decreases b - a,
{
    if s[b - 1] == 0 {
    } else {
        lemma_num_zero_range_exists(s, a, b - 1);
    }
}


/// The decimal digit characters.
pub open spec fn spec_digit(d: int) -> char {
    if d == 0 {
        '0'
    } else if d == 1 {
        '1'
    } else if d == 2 {
        '2'
    } else if d == 3 {
        '3'
    } else if d == 4 {
        '4'
    } else if d == 5 {
        '5'
    } else if d == 6 {
        '6'
    } else if d == 7 {
        '7'
    } else if d == 8 {
        '8'
    } else {
        '9'
    }
}

/// The decimal digits of `n`, most significant first.
pub open spec fn spec_u64_digits(n: int) -> Seq<char>
    decreases n,
{
    if n < 10 {
        seq![spec_digit(n)]
    } else {
        spec_u64_digits(n / 10).push(spec_digit(n % 10))
    }
}

/// The values of a list, separated by comma and space.
pub open spec fn spec_items(s: Seq<u64>) -> Seq<char>
    decreases s.len(),
{
    if s.len() == 0 {
        Seq::empty()
    } else {
        spec_u64_digits(s[0] as int) + spec_rest(s.drop_first())
    }
}

pub open spec fn spec_rest(s: Seq<u64>) -> Seq<char>
    decreases s.len(),
{
    if s.len() == 0 {
        Seq::empty()
    } else {
        ", "@ + spec_u64_digits(s[0] as int) + spec_rest(s.drop_first())
    }
}

/// The mathematical explanation each error renders to.
pub open spec fn spec_error_message(e: InvalidPruferCode) -> Seq<char> {
    match e {
        InvalidPruferCode::ValueTooLarge { invalid_value, code } => "Invalid value in code: "@
            + spec_u64_digits(invalid_value as int) + "\n    SEQ = ["@ + spec_items(code@)
            + "]\n    N := |SEQ| + 2 = "@ + spec_u64_digits(code@.len() as int + 2)
            + "\n    max(SEQ) = "@ + spec_u64_digits(invalid_value as int)
            + "\n    max(SEQ) > N => Invalid pr\u{fc}fer code"@,
        InvalidPruferCode::ValueIsZero { code } => "Invalid value in code: 0\n    SEQ = ["@
            + spec_items(code@) + "]\n    0 \u{2208} SEQ => Invalid pr\u{fc}fer code"@,
    }
}

fn digit_char(d: u64) -> (c: char)
    requires
        d < 10,
    ensures
        c == spec_digit(d as int),
{
    if d == 0 {
        '0'
    } else if d == 1 {
        '1'
    } else if d == 2 {
        '2'
    } else if d == 3 {
        '3'
    } else if d == 4 {
        '4'
    } else if d == 5 {
        '5'
    } else if d == 6 {
        '6'
    } else if d == 7 {
        '7'
    } else if d == 8 {
        '8'
    } else {
        '9'
    }
}

/// Renders a value in decimal.
fn u64_to_string(n: u64) -> (r: String)
    ensures
        r@ == spec_u64_digits(n as int),
    decreases n,
{
    if n < 10 {
        let mut s = String::new();
        crate::util::push_char(&mut s, digit_char(n));
        proof {
            assert(s@ =~= seq![spec_digit(n as int)]);
        }
        s
    } else {
        let mut s = u64_to_string(n / 10);
        crate::util::push_char(&mut s, digit_char(n % 10));
        s
    }
}

/// Renders the values of a list, separated by comma and space.
fn u64_items_string(v: &Vec<u64>) -> (r: String)
    ensures
        r@ == spec_items(v@),
{
    let mut s = String::new();
    if v.len() == 0 {
        proof {
            assert(s@ =~= spec_items(v@));
        }
        return s;
    }
    let first = u64_to_string(v[0]);
    s.append(first.as_str());
    let mut k: usize = 1;
    proof {
        assert(v@.skip(0) =~= v@);
        assert(v@.drop_first() =~= v@.skip(1));
        assert(spec_items(v@) == s@ + spec_rest(v@.skip(1)));
    }
    while k < v.len()
        invariant
            1 <= k <= v@.len(),
            spec_items(v@) == s@ + spec_rest(v@.skip(k as int)),
        decreases v@.len() - k,
    {
        let ghost before = s@;
        s.append(", ");
        let item = u64_to_string(v[k]);
        s.append(item.as_str());
        proof {
            assert(v@.skip(k as int)[0] == v@[k as int]);
            assert(v@.skip(k as int).drop_first() =~= v@.skip(k + 1));
            assert((before + ", "@) + spec_u64_digits(v@[k as int] as int) =~= before + (", "@
                + spec_u64_digits(v@[k as int] as int)));
            assert(before + (", "@ + spec_u64_digits(v@[k as int] as int)) + spec_rest(v@.skip(
                k + 1,
            )) =~= before + ((", "@ + spec_u64_digits(v@[k as int] as int)) + spec_rest(v@.skip(
                k + 1,
            ))));
        }
        k += 1;
    }
    proof {
        assert(v@.skip(v@.len() as int) =~= Seq::<u64>::empty());
        assert(s@ + Seq::<char>::empty() =~= s@);
    }
    s
}

impl InvalidPruferCode {
    /// The sequence the description carries.
    pub open spec fn spec_code(&self) -> Seq<u64> {
        match self {
            InvalidPruferCode::ValueTooLarge { code, .. } => code@,
            InvalidPruferCode::ValueIsZero { code } => code@,
        }
    }

    /// Gives a mathematical explanation of why this description was created.
    pub fn to_string(&self) -> (r: String)
        requires
            self.spec_code().len() + 2 <= u64::MAX,
        ensures
            r@ == spec_error_message(*self),
    {
        match self {
            InvalidPruferCode::ValueTooLarge { invalid_value, code } => {
                let mut s = String::from_str("Invalid value in code: ");
                let value_digits = u64_to_string(*invalid_value);
                s.append(value_digits.as_str());
                s.append("\n    SEQ = [");
                let items = u64_items_string(code);
                s.append(items.as_str());
                s.append("]\n    N := |SEQ| + 2 = ");
                let n_digits = u64_to_string(code.len() as u64 + 2);
                s.append(n_digits.as_str());
                s.append("\n    max(SEQ) = ");
                s.append(value_digits.as_str());
                s.append("\n    max(SEQ) > N => Invalid pr\u{fc}fer code");
                proof {
                    assert(s@ =~= spec_error_message(*self));
                }
                s
            },
            InvalidPruferCode::ValueIsZero { code } => {
                let mut s = String::from_str("Invalid value in code: 0\n    SEQ = [");
                let items = u64_items_string(code);
                s.append(items.as_str());
                s.append("]\n    0 \u{2208} SEQ => Invalid pr\u{fc}fer code");
                proof {
                    assert(s@ =~= spec_error_message(*self));
                }
                s
            },
        }
    }
}

impl PruferCode {
    /// Renders the sequence as a braced, comma-separated value list.
    pub fn to_string(&self) -> (r: String)
        ensures
            r@ == "{"@ + spec_items(self@) + "}"@,
    {
        let mut s = String::from_str("{");
        let items = u64_items_string(&self.code);
        s.append(items.as_str());
        s.append("}");
        proof {
            assert(s@ =~= "{"@ + spec_items(self@) + "}"@);
        }
        s
    }
}

} // verus!
