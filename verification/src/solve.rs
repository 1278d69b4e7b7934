//! The candidate enumerator and the solve-and-print pipeline: every
//! distinct ordering of the four inputs, times every ordered triple of
//! operators, times every binary-tree shape, filtered to the candidates
//! that evaluate to exactly 24, rendered, and deduplicated by string.

use vstd::prelude::*;

use crate::arith::{arity, balance, wf_rpn, Arithmetic, Operation};
use crate::decimal::{dec_int, dec_nat, dec_padded, i64_to_string, lemma_dec_padded_no_dot, u64_to_string};
use crate::eval::{evaluates_to_24, is_solution, spec_apply, spec_eval_stack, Frac};
use crate::token::{render_stack, spec_render, tokenize};

verus! {

/// The views of a sequence of candidate arrays.
pub open spec fn cand_views(v: Seq<[Arithmetic; 7]>) -> Seq<Seq<Arithmetic>> {
    v.map_values(|c: [Arithmetic; 7]| c@)
}

/// The views of a sequence of strings.
pub open spec fn string_views(v: Seq<String>) -> Seq<Seq<char>> {
    v.map_values(|s: String| s@)
}

/// The renderings of a sequence of candidates.
pub open spec fn render_views(cs: Seq<Seq<Arithmetic>>) -> Seq<Seq<char>> {
    cs.map_values(|c: Seq<Arithmetic>| spec_render(c))
}

/// The operator tried at one of the four slots of the operator cycle,
/// in the fixed order addition, subtraction, multiplication, division.
pub open spec fn spec_op_of(j: int) -> Operation {
    if j == 0 {
        Operation::Add
    } else if j == 1 {
        Operation::Sub
    } else if j == 2 {
        Operation::Mul
    } else {
        Operation::Div
    }
}

/// The `t`-th ordered operator triple, for `t` in `0..64`: the first
/// operator cycles slowest, the third fastest.
pub open spec fn spec_op_triple(t: int) -> (Operation, Operation, Operation) {
    (spec_op_of(t / 16), spec_op_of((t / 4) % 4), spec_op_of(t % 4))
}

/// The `k`-th permutation of four positions, for `k` in `0..24`, in
/// lexicographic order.
pub open spec fn spec_perm_row(k: int) -> (int, int, int, int) {
    if k == 0 {
        (0, 1, 2, 3)
    } else if k == 1 {
        (0, 1, 3, 2)
    } else if k == 2 {
        (0, 2, 1, 3)
    } else if k == 3 {
        (0, 2, 3, 1)
    } else if k == 4 {
        (0, 3, 1, 2)
    } else if k == 5 {
        (0, 3, 2, 1)
    } else if k == 6 {
        (1, 0, 2, 3)
    } else if k == 7 {
        (1, 0, 3, 2)
    } else if k == 8 {
        (1, 2, 0, 3)
    } else if k == 9 {
        (1, 2, 3, 0)
    } else if k == 10 {
        (1, 3, 0, 2)
    } else if k == 11 {
        (1, 3, 2, 0)
    } else if k == 12 {
        (2, 0, 1, 3)
    } else if k == 13 {
        (2, 0, 3, 1)
    } else if k == 14 {
        (2, 1, 0, 3)
    } else if k == 15 {
        (2, 1, 3, 0)
    } else if k == 16 {
        (2, 3, 0, 1)
    } else if k == 17 {
        (2, 3, 1, 0)
    } else if k == 18 {
        (3, 0, 1, 2)
    } else if k == 19 {
        (3, 0, 2, 1)
    } else if k == 20 {
        (3, 1, 0, 2)
    } else if k == 21 {
        (3, 1, 2, 0)
    } else if k == 22 {
        (3, 2, 0, 1)
    } else {
        (3, 2, 1, 0)
    }
}

/// The four input values in the order the `k`-th permutation gives them.
pub open spec fn perm_vals(numbers: Seq<i32>, k: int) -> (i32, i32, i32, i32) {
    let p = spec_perm_row(k);
    (numbers[p.0], numbers[p.1], numbers[p.2], numbers[p.3])
}

/// The `s`-th of the five binary-tree shapes over four operands and
/// three operators, as a postfix candidate.
pub open spec fn shape_seq(
    s: int,
    n: (i32, i32, i32, i32),
    o: (Operation, Operation, Operation),
) -> Seq<Arithmetic> {
    let n0 = Arithmetic::Num(n.0);
    let n1 = Arithmetic::Num(n.1);
    let n2 = Arithmetic::Num(n.2);
    let n3 = Arithmetic::Num(n.3);
    let o1 = Arithmetic::Op(o.0);
    let o2 = Arithmetic::Op(o.1);
    let o3 = Arithmetic::Op(o.2);
    if s == 0 {
        seq![n0, n1, o1, n2, o2, n3, o3]
    } else if s == 1 {
        seq![n0, n1, o1, n2, n3, o2, o3]
    } else if s == 2 {
        seq![n0, n1, n2, o1, o2, n3, o3]
    } else if s == 3 {
        seq![n0, n1, n2, o1, n3, o2, o3]
    } else {
        seq![n0, n1, n2, n3, o1, o2, o3]
    }
}

/// The first shape, in order, that makes the given ordering and operator
/// triple evaluate to 24, if any.
pub open spec fn spec_hit(
    n: (i32, i32, i32, i32),
    o: (Operation, Operation, Operation),
) -> Option<Seq<Arithmetic>> {
    if is_solution(shape_seq(0, n, o)) {
        Some(shape_seq(0, n, o))
    } else if is_solution(shape_seq(1, n, o)) {
        Some(shape_seq(1, n, o))
    } else if is_solution(shape_seq(2, n, o)) {
        Some(shape_seq(2, n, o))
    } else if is_solution(shape_seq(3, n, o)) {
        Some(shape_seq(3, n, o))
    } else if is_solution(shape_seq(4, n, o)) {
        Some(shape_seq(4, n, o))
    } else {
        None
    }
}

/// Prefix balance moves by the arity of the token it takes in.
proof fn lemma_balance_take_step(s: Seq<Arithmetic>, i: int)
    requires
        0 <= i < s.len(),
    ensures
        balance(s.take(i + 1)) == balance(s.take(i)) + arity(s[i]),
{
    assert(s.take(i + 1).drop_last() =~= s.take(i));
    assert(s.take(i + 1).last() == s[i]);
}

/// Every one of the five shapes is a well-formed postfix candidate.
#[verifier::rlimit(60)]
pub proof fn lemma_shape_wf(s: int, n: (i32, i32, i32, i32), o: (Operation, Operation, Operation))
    ensures
        wf_rpn(shape_seq(s, n, o)),
{
    let c = shape_seq(s, n, o);
    assert(c.take(0) =~= Seq::<Arithmetic>::empty());
    lemma_balance_take_step(c, 0);
    lemma_balance_take_step(c, 1);
    lemma_balance_take_step(c, 2);
    lemma_balance_take_step(c, 3);
    lemma_balance_take_step(c, 4);
    lemma_balance_take_step(c, 5);
    lemma_balance_take_step(c, 6);
    assert(c.take(7) =~= c);
}

/// Whichever shape the search keeps is well formed and evaluates to 24.
pub proof fn lemma_hit_sound(n: (i32, i32, i32, i32), o: (Operation, Operation, Operation))
    ensures
        spec_hit(n, o) matches Some(c) ==> wf_rpn(c) && is_solution(c),
{
    lemma_shape_wf(0, n, o);
    lemma_shape_wf(1, n, o);
    lemma_shape_wf(2, n, o);
    lemma_shape_wf(3, n, o);
    lemma_shape_wf(4, n, o);
}

/// Builds the `s`-th shape as a token array.
fn build_shape(s: usize, n: (i32, i32, i32, i32), o: (Operation, Operation, Operation)) -> (r: [
    Arithmetic; 7])
    requires
        s < 5,
    ensures
        r@ == shape_seq(s as int, n, o),
{
    let n0 = Arithmetic::Num(n.0);
    let n1 = Arithmetic::Num(n.1);
    let n2 = Arithmetic::Num(n.2);
    let n3 = Arithmetic::Num(n.3);
    let o1 = Arithmetic::Op(o.0);
    let o2 = Arithmetic::Op(o.1);
    let o3 = Arithmetic::Op(o.2);
    let r = if s == 0 {
        [n0, n1, o1, n2, o2, n3, o3]
    } else if s == 1 {
        [n0, n1, o1, n2, n3, o2, o3]
    } else if s == 2 {
        [n0, n1, n2, o1, o2, n3, o3]
    } else if s == 3 {
        [n0, n1, n2, o1, n3, o2, o3]
    } else {
        [n0, n1, n2, n3, o1, o2, o3]
    };
    proof {
        assert(r@ =~= shape_seq(s as int, n, o));
    }
    r
}

/// Tries the five shapes in order and keeps the first that evaluates to
/// 24, if any.
fn find_hit(n: (i32, i32, i32, i32), o: (Operation, Operation, Operation)) -> (r: Option<[
    Arithmetic; 7]>)
    ensures
        r matches Some(c) ==> spec_hit(n, o) == Some(c@),
        r is None ==> spec_hit(n, o) is None,
{
    let c0 = build_shape(0, n, o);
    if evaluates_to_24(&c0) {
        return Some(c0);
    }
    let c1 = build_shape(1, n, o);
    if evaluates_to_24(&c1) {
        return Some(c1);
    }
    let c2 = build_shape(2, n, o);
    if evaluates_to_24(&c2) {
        return Some(c2);
    }
    let c3 = build_shape(3, n, o);
    if evaluates_to_24(&c3) {
        return Some(c3);
    }
    let c4 = build_shape(4, n, o);
    if evaluates_to_24(&c4) {
        return Some(c4);
    }
    None
}

/// The candidates kept for one ordering by the first `t` operator
/// triples: at most one per triple, the first shape that gives 24.
pub open spec fn cands_upto(n: (i32, i32, i32, i32), t: int) -> Seq<Seq<Arithmetic>>
    decreases t,
{
    if t <= 0 {
        Seq::empty()
    } else {
        cands_upto(n, t - 1) + (match spec_hit(n, spec_op_triple(t - 1)) {
            Some(c) => seq![c],
            None => Seq::empty(),
        })
    }
}

/// Whether the `k`-th permutation gives a 4-tuple of values not given by
/// any earlier permutation (duplicate inputs make some coincide).
pub open spec fn is_new_perm(numbers: Seq<i32>, k: int) -> bool {
    forall|k2: int| 0 <= k2 < k ==> perm_vals(numbers, k2) != perm_vals(numbers, k)
}

/// All candidates kept by the first `k` permutations, in discovery
/// order; a permutation whose values were already seen is skipped whole.
pub open spec fn search_upto(numbers: Seq<i32>, k: int) -> Seq<Seq<Arithmetic>>
    decreases k,
{
    if k <= 0 {
        Seq::empty()
    } else {
        search_upto(numbers, k - 1) + (if is_new_perm(numbers, k - 1) {
            cands_upto(perm_vals(numbers, k - 1), 64)
        } else {
            Seq::empty()
        })
    }
}

/// The whole search space: every permutation, every triple, first shape
/// that evaluates to 24.
pub open spec fn spec_search(numbers: Seq<i32>) -> Seq<Seq<Arithmetic>> {
    search_upto(numbers, 24)
}

/// The seen-permutations set after the first `k` permutations.
pub open spec fn seen_upto(numbers: Seq<i32>, k: int) -> Seq<(i32, i32, i32, i32)>
    decreases k,
{
    if k <= 0 {
        Seq::empty()
    } else {
        let s = seen_upto(numbers, k - 1);
        if is_new_perm(numbers, k - 1) {
            s.push(perm_vals(numbers, k - 1))
        } else {
            s
        }
    }
}

/// What the seen set holds at step `j`, it still holds at any later step.
proof fn lemma_seen_mono(numbers: Seq<i32>, j: int, k: int, x: (i32, i32, i32, i32))
    requires
        j <= k,
        seen_upto(numbers, j).contains(x),
    ensures
        seen_upto(numbers, k).contains(x),
    decreases k - j,
{
    if j < k {
        lemma_seen_mono(numbers, j, k - 1, x);
        let prev = seen_upto(numbers, k - 1);
        let i = choose|i: int| 0 <= i < prev.len() && prev[i] == x;
        assert(seen_upto(numbers, k)[i] == x);
    }
}

/// Every permutation already iterated has its value tuple in the seen set.
proof fn lemma_seen_covers(numbers: Seq<i32>, k2: int, k: int)
    requires
        0 <= k2 < k,
    ensures
        seen_upto(numbers, k).contains(perm_vals(numbers, k2)),
    decreases k2,
{
    if is_new_perm(numbers, k2) {
        let s = seen_upto(numbers, k2 + 1);
        assert(s[s.len() - 1] == perm_vals(numbers, k2));
        lemma_seen_mono(numbers, k2 + 1, k, perm_vals(numbers, k2));
    } else {
        let k3 = choose|k3: int|
            0 <= k3 < k2 && perm_vals(numbers, k3) == perm_vals(numbers, k2);
        lemma_seen_covers(numbers, k3, k);
    }
}

/// Everything in the seen set is the value tuple of an earlier permutation.
proof fn lemma_seen_members(numbers: Seq<i32>, k: int)
    ensures
        forall|x: (i32, i32, i32, i32)| #[trigger]
            seen_upto(numbers, k).contains(x) ==> exists|k2: int|
                0 <= k2 < k && perm_vals(numbers, k2) == x,
    decreases k,
{
    if k > 0 {
        lemma_seen_members(numbers, k - 1);
        let prev = seen_upto(numbers, k - 1);
        let cur = seen_upto(numbers, k);
        assert forall|x: (i32, i32, i32, i32)| #[trigger] cur.contains(x) implies exists|k2: int|
            0 <= k2 < k && perm_vals(numbers, k2) == x by {
            let i = choose|i: int| 0 <= i < cur.len() && cur[i] == x;
            if i < prev.len() {
                assert(prev.contains(x));
                let k2 = choose|k2: int| 0 <= k2 < k - 1 && perm_vals(numbers, k2) == x;
                assert(0 <= k2 < k && perm_vals(numbers, k2) == x);
            } else {
                assert(is_new_perm(numbers, k - 1) && x == perm_vals(numbers, k - 1));
            }
        }
    }
}

/// The seen set decides exactly whether a permutation's values are new.
proof fn lemma_seen_decides(numbers: Seq<i32>, k: int)
    requires
        0 <= k,
    ensures
        seen_upto(numbers, k).contains(perm_vals(numbers, k)) <==> !is_new_perm(numbers, k),
{
    if !is_new_perm(numbers, k) {
        let k2 = choose|k2: int|
            0 <= k2 < k && perm_vals(numbers, k2) == perm_vals(numbers, k);
        lemma_seen_covers(numbers, k2, k);
    }
    if seen_upto(numbers, k).contains(perm_vals(numbers, k)) {
        lemma_seen_members(numbers, k);
    }
}

/// Every kept candidate is well formed and evaluates to 24.
proof fn lemma_cands_sound(n: (i32, i32, i32, i32), t: int)
    ensures
        forall|i: int| 0 <= i < cands_upto(n, t).len() ==> wf_rpn(
            #[trigger] cands_upto(n, t)[i],
        ) && is_solution(cands_upto(n, t)[i]),
    decreases t,
{
    if t > 0 {
        lemma_cands_sound(n, t - 1);
        lemma_hit_sound(n, spec_op_triple(t - 1));
        let prev = cands_upto(n, t - 1);
        let cur = cands_upto(n, t);
        assert forall|i: int| 0 <= i < cur.len() implies wf_rpn(#[trigger] cur[i]) && is_solution(
            cur[i],
        ) by {
            if i < prev.len() {
                assert(cur[i] == prev[i]);
            } else {
                assert(spec_hit(n, spec_op_triple(t - 1)) == Some(cur[i]));
            }
        }
    }
}

/// At most one candidate is kept per operator triple.
proof fn lemma_cands_len(n: (i32, i32, i32, i32), t: int)
    requires
        0 <= t,
    ensures
        cands_upto(n, t).len() <= t,
    decreases t,
{
    if t > 0 {
        lemma_cands_len(n, t - 1);
    }
}

/// Every candidate of the whole search is well formed and evaluates to 24.
pub proof fn lemma_search_sound(numbers: Seq<i32>, k: int)
    ensures
        forall|i: int| 0 <= i < search_upto(numbers, k).len() ==> wf_rpn(
            #[trigger] search_upto(numbers, k)[i],
        ) && is_solution(search_upto(numbers, k)[i]),
    decreases k,
{
    if k > 0 {
        lemma_search_sound(numbers, k - 1);
        lemma_cands_sound(perm_vals(numbers, k - 1), 64);
        let prev = search_upto(numbers, k - 1);
        let cur = search_upto(numbers, k);
        assert forall|i: int| 0 <= i < cur.len() implies wf_rpn(#[trigger] cur[i]) && is_solution(
            cur[i],
        ) by {
            if i < prev.len() {
                assert(cur[i] == prev[i]);
            } else {
                assert(cur[i] == cands_upto(perm_vals(numbers, k - 1), 64)[i - prev.len()]);
            }
        }
    }
}

/// The search keeps at most one candidate per permutation and triple.
pub proof fn lemma_search_len(numbers: Seq<i32>, k: int)
    requires
        0 <= k,
    ensures
        search_upto(numbers, k).len() <= 64 * k,
    decreases k,
{
    if k > 0 {
        lemma_search_len(numbers, k - 1);
        lemma_cands_len(perm_vals(numbers, k - 1), 64);
    }
}

/// A sequence of strings with every repeat of an earlier entry removed.
pub open spec fn dedup(ss: Seq<Seq<char>>) -> Seq<Seq<char>>
    decreases ss.len(),
{
    if ss.len() == 0 {
        Seq::empty()
    } else {
        let d = dedup(ss.drop_last());
        if d.contains(ss.last()) {
            d
        } else {
            d.push(ss.last())
        }
    }
}

/// Removing repeats never lengthens a sequence.
pub proof fn lemma_dedup_len(ss: Seq<Seq<char>>)
    ensures
        dedup(ss).len() <= ss.len(),
    decreases ss.len(),
{
    if ss.len() > 0 {
        lemma_dedup_len(ss.drop_last());
    }
}

/// No two entries are left equal after removing repeats.
pub proof fn lemma_dedup_distinct(ss: Seq<Seq<char>>)
    ensures
        forall|i: int, j: int| 0 <= i < j < dedup(ss).len() ==> dedup(ss)[i] != dedup(ss)[j],
    decreases ss.len(),
{
    if ss.len() > 0 {
        lemma_dedup_distinct(ss.drop_last());
        let d = dedup(ss.drop_last());
        if !d.contains(ss.last()) {
            assert forall|i: int, j: int|
                0 <= i < j < dedup(ss).len() implies dedup(ss)[i] != dedup(ss)[j] by {
                if j == dedup(ss).len() - 1 {
                    assert(dedup(ss)[i] == d[i]);
                    assert(dedup(ss)[j] == ss.last());
                    if d[i] == ss.last() {
                        assert(d.contains(ss.last()));
                    }
                }
            }
        }
    }
}

/// Everything left after removing repeats was in the input sequence.
pub proof fn lemma_dedup_subset(ss: Seq<Seq<char>>)
    ensures
        forall|i: int| 0 <= i < dedup(ss).len() ==> ss.contains(#[trigger] dedup(ss)[i]),
    decreases ss.len(),
{
    if ss.len() > 0 {
        lemma_dedup_subset(ss.drop_last());
        let d = dedup(ss.drop_last());
        assert forall|i: int| 0 <= i < dedup(ss).len() implies ss.contains(
            #[trigger] dedup(ss)[i],
        ) by {
            if i < d.len() {
                let j = choose|j: int|
                    0 <= j < ss.drop_last().len() && ss.drop_last()[j] == d[i];
                assert(ss[j] == d[i]);
            } else {
                assert(ss[ss.len() - 1] == ss.last());
            }
        }
    }
}

/// The unique solution strings of one run, in discovery order.
pub open spec fn spec_solutions(numbers: Seq<i32>) -> Seq<Seq<char>> {
    dedup(render_views(spec_search(numbers)))
}

/// The line reported when no combination reaches 24.
pub open spec fn cannot_line(numbers: Seq<i32>) -> Seq<char> {
    "Cannot get 24 from ["@ + dec_int(numbers[0] as int) + ", "@ + dec_int(numbers[1] as int)
        + ", "@ + dec_int(numbers[2] as int) + ", "@ + dec_int(numbers[3] as int) + "]"@
}

/// The `i`-th numbered output line for a solution string.
pub open spec fn line_of(i: int, s: Seq<char>) -> Seq<char> {
    dec_padded(i + 1) + ". "@ + s
}

/// Everything one run prints: the numbered unique solutions, or the
/// single no-solution line.
pub open spec fn spec_lines(numbers: Seq<i32>) -> Seq<Seq<char>> {
    if spec_solutions(numbers).len() == 0 {
        seq![cannot_line(numbers)]
    } else {
        Seq::new(spec_solutions(numbers).len(), |i: int| line_of(i, spec_solutions(numbers)[i]))
    }
}

/// The operator at one slot of the operator cycle.
fn op_of(j: usize) -> (r: Operation)
    requires
        j < 4,
    ensures
        r == spec_op_of(j as int),
{
    if j == 0 {
        Operation::Add
    } else if j == 1 {
        Operation::Sub
    } else if j == 2 {
        Operation::Mul
    } else {
        Operation::Div
    }
}

/// The `k`-th permutation of four positions, in lexicographic order.
fn perm_row(k: usize) -> (r: (usize, usize, usize, usize))
    requires
        k < 24,
    ensures
        (r.0 as int, r.1 as int, r.2 as int, r.3 as int) == spec_perm_row(k as int),
        r.0 < 4 && r.1 < 4 && r.2 < 4 && r.3 < 4,
{
    if k == 0 {
        (0, 1, 2, 3)
    } else if k == 1 {
        (0, 1, 3, 2)
    } else if k == 2 {
        (0, 2, 1, 3)
    } else if k == 3 {
        (0, 2, 3, 1)
    } else if k == 4 {
        (0, 3, 1, 2)
    } else if k == 5 {
        (0, 3, 2, 1)
    } else if k == 6 {
        (1, 0, 2, 3)
    } else if k == 7 {
        (1, 0, 3, 2)
    } else if k == 8 {
        (1, 2, 0, 3)
    } else if k == 9 {
        (1, 2, 3, 0)
    } else if k == 10 {
        (1, 3, 0, 2)
    } else if k == 11 {
        (1, 3, 2, 0)
    } else if k == 12 {
        (2, 0, 1, 3)
    } else if k == 13 {
        (2, 0, 3, 1)
    } else if k == 14 {
        (2, 1, 0, 3)
    } else if k == 15 {
        (2, 1, 3, 0)
    } else if k == 16 {
        (2, 3, 0, 1)
    } else if k == 17 {
        (2, 3, 1, 0)
    } else if k == 18 {
        (3, 0, 1, 2)
    } else if k == 19 {
        (3, 0, 2, 1)
    } else if k == 20 {
        (3, 1, 0, 2)
    } else if k == 21 {
        (3, 1, 2, 0)
    } else if k == 22 {
        (3, 2, 0, 1)
    } else {
        (3, 2, 1, 0)
    }
}

/// Whether a value tuple is already in the seen set.
fn contains_tuple(seen: &Vec<(i32, i32, i32, i32)>, x: (i32, i32, i32, i32)) -> (r: bool)
    ensures
        r == seen@.contains(x),
{
    let mut i: usize = 0;
    while i < seen.len()
        invariant
            0 <= i <= seen@.len(),
            forall|j: int| 0 <= j < i ==> seen@[j] != x,
        decreases seen@.len() - i,
    {
        let c = seen[i];
        if c.0 == x.0 && c.1 == x.1 && c.2 == x.2 && c.3 == x.3 {
            return true;
        }
        i += 1;
    }
    false
}

/// Whether a rendered solution string was already emitted.
fn contains_string(v: &Vec<String>, s: &String) -> (r: bool)
    ensures
        r == string_views(v@).contains(s@),
{
    let ghost m = string_views(v@);
    let mut i: usize = 0;
    while i < v.len()
        invariant
            0 <= i <= v@.len(),
            m == string_views(v@),
            forall|j: int| 0 <= j < i ==> m[j] != s@,
        decreases v@.len() - i,
    {
        if v[i].eq(s) {
            assert(m[i as int] == s@);
            return true;
        }
        i += 1;
    }
    false
}

/// Runs the whole search: every distinct ordering of the inputs, every
/// operator triple, and for each the first shape that evaluates to 24.
pub fn find_solutions(numbers: &[i32; 4]) -> (r: Vec<[Arithmetic; 7]>)
    ensures
        cand_views(r@) == spec_search(numbers@),
        r@.len() <= 1536,
{
    let mut rpns: Vec<[Arithmetic; 7]> = Vec::new();
    let mut seen: Vec<(i32, i32, i32, i32)> = Vec::new();
    let mut k: usize = 0;
    while k < 24
        invariant
            0 <= k <= 24,
            numbers@.len() == 4,
            cand_views(rpns@) == search_upto(numbers@, k as int),
            seen@ == seen_upto(numbers@, k as int),
        decreases 24 - k,
    {
        let p = perm_row(k);
        let vals = (numbers[p.0], numbers[p.1], numbers[p.2], numbers[p.3]);
        proof {
            assert(vals == perm_vals(numbers@, k as int));
            lemma_seen_decides(numbers@, k as int);
        }
        if !contains_tuple(&seen, vals) {
            seen.push(vals);
            let mut t: usize = 0;
            while t < 64
                invariant
                    0 <= t <= 64,
                    numbers@.len() == 4,
                    0 <= k < 24,
                    vals == perm_vals(numbers@, k as int),
                    is_new_perm(numbers@, k as int),
                    cand_views(rpns@) == search_upto(numbers@, k as int)
                        + cands_upto(vals, t as int),
                decreases 64 - t,
            {
                let o = (op_of(t / 16), op_of((t / 4) % 4), op_of(t % 4));
                proof {
                    assert(o == spec_op_triple(t as int));
                }
                match find_hit(vals, o) {
                    Some(c) => {
                        let ghost before = rpns@;
                        rpns.push(c);
                        proof {
                            let target = search_upto(numbers@, k as int) + cands_upto(
                                vals,
                                t + 1,
                            );
                            assert(cands_upto(vals, t + 1) =~= cands_upto(vals, t as int)
                                + seq![c@]);
                            assert(rpns@ == before.push(c));
                            assert(cand_views(before) == search_upto(numbers@, k as int)
                                + cands_upto(vals, t as int));
                            assert(cands_upto(vals, t + 1).len() == cands_upto(
                                vals,
                                t as int,
                            ).len() + 1);
                            assert(before.len() == cand_views(before).len());
                            assert(target.len() == rpns@.len());
                            assert forall|i2: int|
                                0 <= i2 < rpns@.len() implies cand_views(rpns@)[i2]
                                == target[i2] by {
                                assert(cand_views(rpns@)[i2] == rpns@[i2]@);
                                let s0 = search_upto(numbers@, k as int);
                                if i2 < before.len() {
                                    assert(rpns@[i2] == before[i2]);
                                    assert(cand_views(before)[i2] == before[i2]@);
                                    if i2 < s0.len() {
                                        assert(target[i2] == s0[i2]);
                                        assert(cand_views(before)[i2] == s0[i2]);
                                    } else {
                                        assert(target[i2] == cands_upto(vals, t + 1)[i2
                                            - s0.len()]);
                                        assert(cands_upto(vals, t + 1)[i2 - s0.len()]
                                            == cands_upto(vals, t as int)[i2 - s0.len()]);
                                        assert(cand_views(before)[i2] == cands_upto(
                                            vals,
                                            t as int,
                                        )[i2 - s0.len()]);
                                    }
                                } else {
                                    assert(rpns@[i2] == c);
                                    assert(target[i2] == cands_upto(vals, t + 1)[i2 - s0.len()]);
                                    assert(cands_upto(vals, t + 1)[i2 - s0.len()] == c@);
                                }
                            }
                            assert(cand_views(rpns@) =~= target);
                        }
                    },
                    None => {
                        proof {
                            assert(search_upto(numbers@, k as int) + cands_upto(vals, t + 1)
                                =~= search_upto(numbers@, k as int) + cands_upto(vals, t as int));
                        }
                    },
                }
                t += 1;
            }
            proof {
                assert(cand_views(rpns@) =~= search_upto(
                    numbers@,
                    k + 1,
                ));
            }
        } else {
            proof {
                assert(cand_views(rpns@) =~= search_upto(
                    numbers@,
                    k + 1,
                ));
            }
        }
        k += 1;
    }
    proof {
        lemma_search_len(numbers@, 24);
        assert(rpns@.len() == cand_views(rpns@).len());
    }
    rpns
}

/// The unique solution strings for four inputs, in discovery order.
pub fn solutions(numbers: &[i32; 4]) -> (r: Vec<String>)
    ensures
        string_views(r@) == spec_solutions(numbers@),
        r@.len() <= 1536,
{
    let rpns = find_solutions(numbers);
    let ghost search = spec_search(numbers@);
    let ghost rendered = render_views(search);
    proof {
        lemma_search_sound(numbers@, 24);
    }
    let mut out: Vec<String> = Vec::new();
    let mut i: usize = 0;
    while i < rpns.len()
        invariant
            0 <= i <= rpns@.len(),
            cand_views(rpns@) == search,
            rendered == render_views(search),
            forall|j: int| 0 <= j < search.len() ==> wf_rpn(#[trigger] search[j]) && is_solution(
                search[j],
            ),
            string_views(out@) == dedup(rendered.take(i as int)),
        decreases rpns@.len() - i,
    {
        proof {
            assert(cand_views(rpns@)[i as int] == rpns@[i as int]@);
            assert(wf_rpn(rpns@[i as int]@) && is_solution(rpns@[i as int]@));
        }
        let tree = tokenize(&rpns[i]);
        let s = tree.to_string();
        proof {
            assert(rendered.take(i + 1).drop_last() =~= rendered.take(i as int));
            assert(rendered.take(i + 1).last() == spec_render(search[i as int]));
        }
        if !contains_string(&out, &s) {
            out.push(s);
            proof {
                assert(string_views(out@) =~= dedup(rendered.take(i + 1)));
            }
        } else {
            proof {
                assert(string_views(out@) =~= dedup(rendered.take(i + 1)));
            }
        }
        i += 1;
    }
    proof {
        assert(rendered.take(rpns@.len() as int) =~= rendered);
        lemma_dedup_len(rendered);
        assert(out@.len() == string_views(out@).len());
    }
    out
}

/// The exact lines one run prints, pinned to a function of the four
/// inputs alone, so two runs on the same input print the same text:
/// the numbered unique solutions, or the
/// single no-solution line.
pub fn solve(numbers: &[i32; 4]) -> (r: Vec<String>)
    ensures
        string_views(r@) == spec_lines(numbers@),
{
    let sols = solutions(numbers);
    let mut lines: Vec<String> = Vec::new();
    if sols.len() == 0 {
        let mut line = String::from_str("Cannot get 24 from [");
        line.append(i64_to_string(numbers[0] as i64).as_str());
        line.append(", ");
        line.append(i64_to_string(numbers[1] as i64).as_str());
        line.append(", ");
        line.append(i64_to_string(numbers[2] as i64).as_str());
        line.append(", ");
        line.append(i64_to_string(numbers[3] as i64).as_str());
        line.append("]");
        proof {
            assert(line@ =~= cannot_line(numbers@));
        }
        lines.push(line);
        proof {
            assert(string_views(lines@) =~= spec_lines(numbers@));
        }
    } else {
        let ghost sl = spec_solutions(numbers@);
        let mut i: usize = 0;
        while i < sols.len()
            invariant
                0 <= i <= sols@.len(),
                string_views(sols@) == sl,
                sols@.len() <= 1536,
                string_views(lines@) == Seq::new(i as nat, |j: int| line_of(j, sl[j])),
            decreases sols@.len() - i,
        {
            let id = (i + 1) as u64;
            let mut line: String;
            if id < 10 {
                line = String::from_str("0");
                line.append(u64_to_string(id).as_str());
                proof {
                    reveal_strlit("0");
                    assert("0"@ =~= seq!['0']);
                    assert(line@ =~= dec_padded(id as int));
                }
            } else {
                line = u64_to_string(id);
            }
            proof {
                assert(string_views(sols@)[i as int] == sols@[i as int]@);
            }
            line.append(". ");
            line.append(sols[i].as_str());
            proof {
                assert(line@ =~= line_of(i as int, sl[i as int]));
            }
            let ghost before = lines@;
            lines.push(line);
            proof {
                let target = Seq::new((i + 1) as nat, |j: int| line_of(j, sl[j]));
                assert(lines@ == before.push(line));
                assert(string_views(before) == Seq::new(i as nat, |j: int| line_of(j, sl[j])));
                assert(string_views(before).len() == i as int);
                assert(before.len() == i as int);
                assert(lines@.len() == i + 1);
                assert(target.len() == i + 1);
                assert forall|j: int|
                    0 <= j < lines@.len() implies string_views(lines@)[j] == target[j] by {
                    assert(string_views(lines@)[j] == lines@[j]@);
                    assert(target[j] == line_of(j, sl[j]));
                    if j < before.len() {
                        assert(lines@[j] == before[j]);
                        assert(string_views(before)[j] == before[j]@);
                        assert(Seq::new(i as nat, |j2: int| line_of(j2, sl[j2]))[j] == line_of(
                            j,
                            sl[j],
                        ));
                    } else {
                        assert(lines@[j] == line);
                        assert(j == i as int);
                        assert(line@ == line_of(i as int, sl[i as int]));
                    }
                }
                assert(string_views(lines@) =~= target);
            }
            i += 1;
        }
        proof {
            assert(string_views(lines@) =~= spec_lines(numbers@));
        }
    }
    lines
}

/// The number of distinct printed solutions never exceeds the size of
/// the enumerated space: one candidate per permutation and triple.
pub proof fn lemma_solution_count(numbers: Seq<i32>)
    ensures
        spec_solutions(numbers).len() <= 1536,
{
    lemma_search_len(numbers, 24);
    lemma_dedup_len(render_views(spec_search(numbers)));
}

/// No two solution strings of one run are textually identical.
pub proof fn lemma_solutions_distinct(numbers: Seq<i32>)
    ensures
        forall|i: int, j: int| 0 <= i < j < spec_solutions(numbers).len() ==> spec_solutions(
            numbers,
        )[i] != spec_solutions(numbers)[j],
{
    lemma_dedup_distinct(render_views(spec_search(numbers)));
}

/// Every emitted solution string is the rendering of a well-formed
/// candidate that evaluates to exactly 24: the printed text is faithful
/// to the candidate that produced it.
pub proof fn lemma_solutions_faithful(numbers: Seq<i32>)
    ensures
        forall|i: int| 0 <= i < spec_solutions(numbers).len() ==> exists|c: Seq<Arithmetic>|
            wf_rpn(c) && is_solution(c) && #[trigger] spec_solutions(numbers)[i] == spec_render(c),
{
    let search = spec_search(numbers);
    let rendered = render_views(search);
    lemma_dedup_subset(rendered);
    lemma_search_sound(numbers, 24);
    assert forall|i: int| 0 <= i < spec_solutions(numbers).len() implies exists|
        c: Seq<Arithmetic>,
    |
        wf_rpn(c) && is_solution(c) && #[trigger] spec_solutions(numbers)[i] == spec_render(
            c,
        ) by {
        let j = choose|j: int| 0 <= j < rendered.len() && rendered[j] == spec_solutions(numbers)[i];
        let c = search[j];
        assert(wf_rpn(c) && is_solution(c) && spec_solutions(numbers)[i] == spec_render(c));
    }
}

/// No two emitted lines of one run are textually identical: the numbered
/// lines carry pairwise distinct solution strings, and the one
/// no-solution line stands alone.
pub proof fn lemma_lines_distinct(numbers: Seq<i32>)
    ensures
        forall|i: int, j: int| 0 <= i < j < spec_lines(numbers).len() ==> spec_lines(numbers)[i]
            != spec_lines(numbers)[j],
{
    let sl = spec_solutions(numbers);
    lemma_solutions_distinct(numbers);
    if sl.len() != 0 {
        assert forall|i: int, j: int|
            0 <= i < j < spec_lines(numbers).len() implies spec_lines(numbers)[i] != spec_lines(
            numbers,
        )[j] by {
            let li = spec_lines(numbers)[i];
            let lj = spec_lines(numbers)[j];
            assert(li == line_of(i, sl[i]));
            assert(lj == line_of(j, sl[j]));
            let pi = dec_padded(i + 1);
            let pj = dec_padded(j + 1);
            lemma_dec_padded_no_dot(i + 1);
            lemma_dec_padded_no_dot(j + 1);
            reveal_strlit(". ");
            assert(". "@[0] == '.');
            if li == lj {
                if pi.len() == pj.len() {
                    // Equal number width: the solution strings would have
                    // to agree, against their pairwise distinctness.
                    assert(sl[i].len() == sl[j].len());
                    assert forall|k: int| 0 <= k < sl[i].len() implies sl[i][k] == sl[j][k] by {
                        assert(li[pi.len() + 2 + k] == sl[i][k]);
                        assert(lj[pj.len() + 2 + k] == sl[j][k]);
                    }
                    assert(sl[i] =~= sl[j]);
                } else if pi.len() < pj.len() {
                    // Narrower number: a full stop stands where the wider
                    // line still has a digit.
                    assert(li[pi.len() as int] == '.');
                    assert(lj[pi.len() as int] == pj[pi.len() as int]);
                } else {
                    assert(lj[pj.len() as int] == '.');
                    assert(li[pj.len() as int] == pi[pj.len() as int]);
                }
            }
        }
    }
}


/// The inputs 1, 2, 1, 7 admit a solution: the candidate
/// `(1 + 2) x (1 + 7)`, as a postfix sequence over exactly those
/// numbers, evaluates to 24.
pub proof fn lemma_example_1_2_1_7()
    ensures
        is_solution(
            seq![
                Arithmetic::Num(1),
                Arithmetic::Num(2),
                Arithmetic::Op(Operation::Add),
                Arithmetic::Num(1),
                Arithmetic::Num(7),
                Arithmetic::Op(Operation::Add),
                Arithmetic::Op(Operation::Mul),
            ],
        ),
{
    let one = Frac { num: 1i64, den: 1i64 };
    let two = Frac { num: 2i64, den: 1i64 };
    let three = Frac { num: 3i64, den: 1i64 };
    let seven = Frac { num: 7i64, den: 1i64 };
    let eight = Frac { num: 8i64, den: 1i64 };
    let c = seq![
        Arithmetic::Num(1),
        Arithmetic::Num(2),
        Arithmetic::Op(Operation::Add),
        Arithmetic::Num(1),
        Arithmetic::Num(7),
        Arithmetic::Op(Operation::Add),
        Arithmetic::Op(Operation::Mul),
    ];
    let p0 = Seq::<Arithmetic>::empty();
    let p1 = seq![c[0]];
    let p2 = seq![c[0], c[1]];
    let p3 = seq![c[0], c[1], c[2]];
    let p4 = seq![c[0], c[1], c[2], c[3]];
    let p5 = seq![c[0], c[1], c[2], c[3], c[4]];
    let p6 = seq![c[0], c[1], c[2], c[3], c[4], c[5]];
    assert(p1.drop_last() =~= p0);
    assert(p2.drop_last() =~= p1);
    assert(p3.drop_last() =~= p2);
    assert(p4.drop_last() =~= p3);
    assert(p5.drop_last() =~= p4);
    assert(p6.drop_last() =~= p5);
    assert(c.drop_last() =~= p6);
    assert(spec_eval_stack(p0) == Some(Seq::<Frac>::empty()));
    assert(Seq::<Frac>::empty().push(one) =~= seq![one]);
    assert(spec_eval_stack(p1) == Some(seq![one]));
    assert(seq![one].push(two) =~= seq![one, two]);
    assert(spec_eval_stack(p2) == Some(seq![one, two]));
    assert(spec_apply(Operation::Add, one, two) == Some(three));
    assert(seq![one, two].take(0).push(three) =~= seq![three]);
    assert(spec_eval_stack(p3) == Some(seq![three]));
    assert(seq![three].push(one) =~= seq![three, one]);
    assert(spec_eval_stack(p4) == Some(seq![three, one]));
    assert(seq![three, one].push(seven) =~= seq![three, one, seven]);
    assert(spec_eval_stack(p5) == Some(seq![three, one, seven]));
    assert(spec_apply(Operation::Add, one, seven) == Some(eight));
    assert(seq![three, one, seven].take(1).push(eight) =~= seq![three, eight]);
    assert(spec_eval_stack(p6) == Some(seq![three, eight]));
    assert(spec_apply(Operation::Mul, three, eight) == Some(Frac { num: 24i64, den: 1i64 }));
    assert(seq![three, eight].take(0).push(Frac { num: 24i64, den: 1i64 }) =~= seq![
        Frac { num: 24i64, den: 1i64 },
    ]);
    assert(spec_eval_stack(c) == Some(seq![Frac { num: 24i64, den: 1i64 }]));
}

/// The inputs 2, 7, 7, 13 admit the known solution `(13 - 7/7) x 2`:
/// the candidate evaluates to 24, and the printer renders it as exactly
/// the string `(13 - 7 / 7) x 2`.
#[verifier::rlimit(60)]
pub proof fn lemma_example_2_7_7_13()
    ensures
        is_solution(
            seq![
                Arithmetic::Num(13),
                Arithmetic::Num(7),
                Arithmetic::Num(7),
                Arithmetic::Op(Operation::Div),
                Arithmetic::Op(Operation::Sub),
                Arithmetic::Num(2),
                Arithmetic::Op(Operation::Mul),
            ],
        ),
        spec_render(
            seq![
                Arithmetic::Num(13),
                Arithmetic::Num(7),
                Arithmetic::Num(7),
                Arithmetic::Op(Operation::Div),
                Arithmetic::Op(Operation::Sub),
                Arithmetic::Num(2),
                Arithmetic::Op(Operation::Mul),
            ],
        ) == "(13 - 7 / 7) x 2"@,
{
    let c = seq![
        Arithmetic::Num(13),
        Arithmetic::Num(7),
        Arithmetic::Num(7),
        Arithmetic::Op(Operation::Div),
        Arithmetic::Op(Operation::Sub),
        Arithmetic::Num(2),
        Arithmetic::Op(Operation::Mul),
    ];
    let p0 = Seq::<Arithmetic>::empty();
    let p1 = seq![c[0]];
    let p2 = seq![c[0], c[1]];
    let p3 = seq![c[0], c[1], c[2]];
    let p4 = seq![c[0], c[1], c[2], c[3]];
    let p5 = seq![c[0], c[1], c[2], c[3], c[4]];
    let p6 = seq![c[0], c[1], c[2], c[3], c[4], c[5]];
    assert(p1.drop_last() =~= p0);
    assert(p2.drop_last() =~= p1);
    assert(p3.drop_last() =~= p2);
    assert(p4.drop_last() =~= p3);
    assert(p5.drop_last() =~= p4);
    assert(p6.drop_last() =~= p5);
    assert(c.drop_last() =~= p6);

    let thirteen = Frac { num: 13i64, den: 1i64 };
    let seven = Frac { num: 7i64, den: 1i64 };
    let sevenths = Frac { num: 7i64, den: 7i64 };
    let twelve7 = Frac { num: 84i64, den: 7i64 };
    let two = Frac { num: 2i64, den: 1i64 };
    assert(spec_eval_stack(p0) == Some(Seq::<Frac>::empty()));
    assert(Seq::<Frac>::empty().push(thirteen) =~= seq![thirteen]);
    assert(spec_eval_stack(p1) == Some(seq![thirteen]));
    assert(seq![thirteen].push(seven) =~= seq![thirteen, seven]);
    assert(spec_eval_stack(p2) == Some(seq![thirteen, seven]));
    assert(seq![thirteen, seven].push(seven) =~= seq![thirteen, seven, seven]);
    assert(spec_eval_stack(p3) == Some(seq![thirteen, seven, seven]));
    assert(spec_apply(Operation::Div, seven, seven) == Some(sevenths));
    assert(seq![thirteen, seven, seven].take(1).push(sevenths) =~= seq![thirteen, sevenths]);
    assert(spec_eval_stack(p4) == Some(seq![thirteen, sevenths]));
    assert(spec_apply(Operation::Sub, thirteen, sevenths) == Some(twelve7));
    assert(seq![thirteen, sevenths].take(0).push(twelve7) =~= seq![twelve7]);
    assert(spec_eval_stack(p5) == Some(seq![twelve7]));
    assert(seq![twelve7].push(two) =~= seq![twelve7, two]);
    assert(spec_eval_stack(p6) == Some(seq![twelve7, two]));
    assert(spec_apply(Operation::Mul, twelve7, two) == Some(Frac { num: 168i64, den: 7i64 }));
    assert(seq![twelve7, two].take(0).push(Frac { num: 168i64, den: 7i64 }) =~= seq![
        Frac { num: 168i64, den: 7i64 },
    ]);
    assert(spec_eval_stack(c) == Some(seq![Frac { num: 168i64, den: 7i64 }]));
    assert(168i64 == 24 * 7i64);

    // The rendering, built over the same stack discipline.
    vstd::arithmetic::div_mod::lemma_fundamental_div_mod(13int, 10int);
    assert(13int / 10int == 1 && 13int % 10int == 3);
    assert(dec_nat(1) =~= seq!['1']);
    assert(dec_nat(13) =~= seq!['1', '3']);
    assert(dec_int(13) =~= seq!['1', '3']);
    assert(dec_nat(7) =~= seq!['7']);
    assert(dec_int(7) =~= seq!['7']);
    assert(dec_nat(2) =~= seq!['2']);
    assert(dec_int(2) =~= seq!['2']);
    let s13 = seq!['1', '3'];
    let s7 = seq!['7'];
    let s2 = seq!['2'];
    let k13 = Arithmetic::Num(13);
    let k7 = Arithmetic::Num(7);
    let k2 = Arithmetic::Num(2);
    let kdiv = Arithmetic::Op(Operation::Div);
    let ksub = Arithmetic::Op(Operation::Sub);
    reveal_strlit(" / ");
    reveal_strlit(" - ");
    reveal_strlit(" x ");
    reveal_strlit("(13 - 7 / 7) x 2");
    let sdiv = s7 + " / "@ + s7;
    let ssub = s13 + " - "@ + sdiv;
    let sall = crate::token::wrap(ssub) + " x "@ + s2;
    assert(render_stack(p0) == Some(Seq::<(Seq<char>, Arithmetic)>::empty()));
    assert(Seq::<(Seq<char>, Arithmetic)>::empty().push((dec_int(13), k13)) =~= seq![
        (s13, k13),
    ]);
    assert(render_stack(p1) == Some(seq![(s13, k13)]));
    assert(seq![(s13, k13)].push((dec_int(7), k7)) =~= seq![(s13, k13), (s7, k7)]);
    assert(render_stack(p2) == Some(seq![(s13, k13), (s7, k7)]));
    assert(seq![(s13, k13), (s7, k7)].push((dec_int(7), k7)) =~= seq![
        (s13, k13),
        (s7, k7),
        (s7, k7),
    ]);
    assert(render_stack(p3) == Some(seq![(s13, k13), (s7, k7), (s7, k7)]));
    assert(crate::token::join2(Operation::Div, k7, s7, k7, s7) == sdiv);
    assert(seq![(s13, k13), (s7, k7), (s7, k7)].take(1).push((sdiv, kdiv)) =~= seq![
        (s13, k13),
        (sdiv, kdiv),
    ]);
    assert(render_stack(p4) == Some(seq![(s13, k13), (sdiv, kdiv)]));
    assert(crate::token::join2(Operation::Sub, k13, s13, kdiv, sdiv) == ssub);
    assert(seq![(s13, k13), (sdiv, kdiv)].take(0).push((ssub, ksub)) =~= seq![(ssub, ksub)]);
    assert(render_stack(p5) == Some(seq![(ssub, ksub)]));
    assert(seq![(ssub, ksub)].push((dec_int(2), k2)) =~= seq![(ssub, ksub), (s2, k2)]);
    assert(render_stack(p6) == Some(seq![(ssub, ksub), (s2, k2)]));
    assert(crate::token::join2(Operation::Mul, ksub, ssub, k2, s2) == sall);
    assert(seq![(ssub, ksub), (s2, k2)].take(0).push(
        (sall, Arithmetic::Op(Operation::Mul)),
    ) =~= seq![(sall, Arithmetic::Op(Operation::Mul))]);
    assert(render_stack(c) == Some(seq![(sall, Arithmetic::Op(Operation::Mul))]));
    assert(sall =~= "(13 - 7 / 7) x 2"@);
}

} // verus!
