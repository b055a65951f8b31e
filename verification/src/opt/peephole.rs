//! Constant folding and peephole fusion inside a block.
//!
//! Each round scans the kept instructions of the block and rewrites
//! patterns; rounds repeat until one changes nothing. Every rewrite either
//! removes an instruction or turns a copy or an addition into a constant
//! load, so the pair (kept instructions, kept copies and additions) shrinks
//! in each round that changes something, which bounds the rounds.
use vstd::prelude::*;

use crate::opcode::Opcode;
use crate::opt::dead::{removed_copy, same_outside};
use crate::opt::inst::{Instruction, ACC};

verus! {

/// A kept copy or addition: the instructions that a rewrite may turn into a
/// constant load without removing anything.
pub open spec fn is_churn(i: Instruction) -> bool {
    !i.removed && (i.opcode == Opcode::Mov || i.opcode == Opcode::Add)
}

/// Kept instructions in `lo..hi`.
pub open spec fn kept_count(s: Seq<Instruction>, lo: int, hi: int) -> nat
    decreases hi - lo,
{
    if hi <= lo {
        0
    } else {
        kept_count(s, lo, hi - 1) + if s[hi - 1].removed {
            0nat
        } else {
            1nat
        }
    }
}

/// Kept copies and additions in `lo..hi`.
pub open spec fn churn_count(s: Seq<Instruction>, lo: int, hi: int) -> nat
    decreases hi - lo,
{
    if hi <= lo {
        0
    } else {
        churn_count(s, lo, hi - 1) + if is_churn(s[hi - 1]) {
            1nat
        } else {
            0nat
        }
    }
}

pub open spec fn kept_bit(i: Instruction) -> nat {
    if i.removed {
        0
    } else {
        1
    }
}

pub open spec fn churn_bit(i: Instruction) -> nat {
    if is_churn(i) {
        1
    } else {
        0
    }
}

/// The termination measure of a block: kept instructions, then kept copies
/// and additions.
pub open spec fn measure(s: Seq<Instruction>, lo: int, hi: int) -> (nat, nat) {
    (kept_count(s, lo, hi), churn_count(s, lo, hi))
}

pub open spec fn lex_lt(x: (nat, nat), y: (nat, nat)) -> bool {
    x.0 < y.0 || (x.0 == y.0 && x.1 < y.1)
}

pub open spec fn lex_le(x: (nat, nat), y: (nat, nat)) -> bool {
    lex_lt(x, y) || x == y
}

pub proof fn lemma_counts_update(s: Seq<Instruction>, lo: int, hi: int, i: int, x: Instruction)
    requires
        0 <= lo <= hi <= s.len(),
        0 <= i < s.len(),
    ensures
        lo <= i < hi ==> kept_count(s.update(i, x), lo, hi) + kept_bit(s[i]) == kept_count(s, lo, hi)
            + kept_bit(x),
        lo <= i < hi ==> churn_count(s.update(i, x), lo, hi) + churn_bit(s[i]) == churn_count(
            s,
            lo,
            hi,
        ) + churn_bit(x),
        !(lo <= i < hi) ==> kept_count(s.update(i, x), lo, hi) == kept_count(s, lo, hi),
        !(lo <= i < hi) ==> churn_count(s.update(i, x), lo, hi) == churn_count(s, lo, hi),
    decreases hi - lo,
{
    if hi > lo {
        lemma_counts_update(s, lo, hi - 1, i, x);
    }
}

/// Rounds make progress: a round that changed something lowered the
/// measure, one that did not left the block as it was.
pub open spec fn progress(
    now: Seq<Instruction>,
    round_start: Seq<Instruction>,
    lo: int,
    hi: int,
    changed: bool,
) -> bool {
    &&& changed ==> lex_lt(measure(now, lo, hi), measure(round_start, lo, hi))
    &&& !changed ==> now == round_start
}

proof fn lemma_step(
    before: Seq<Instruction>,
    after: Seq<Instruction>,
    round_start: Seq<Instruction>,
    lo: int,
    hi: int,
    changed: bool,
)
    requires
        progress(before, round_start, lo, hi, changed),
        lex_le(measure(after, lo, hi), measure(before, lo, hi)),
        !changed ==> lex_lt(measure(after, lo, hi), measure(before, lo, hi)),
    ensures
        progress(after, round_start, lo, hi, true),
{
}

/// Marks instruction `k` removed.
fn remove_at(insts: &mut Vec<Instruction>, k: usize)
    requires
        k < old(insts)@.len(),
    ensures
        final(insts)@ == old(insts)@.update(k as int, removed_copy(old(insts)@[k as int])),
{
    let mut x = insts[k];
    x.removed = true;
    insts.set(k, x);
}

proof fn lemma_remove_measure(s: Seq<Instruction>, lo: int, hi: int, k: int)
    requires
        0 <= lo <= k < hi <= s.len(),
    ensures
        lex_le(measure(s.update(k, removed_copy(s[k])), lo, hi), measure(s, lo, hi)),
        !s[k].removed ==> lex_lt(measure(s.update(k, removed_copy(s[k])), lo, hi), measure(s, lo, hi)),
{
    lemma_counts_update(s, lo, hi, k, removed_copy(s[k]));
}

/// `LoadI r, v; Mov d, r` becomes `LoadI r, v; LoadI d, v`.
pub fn rewrite_load_move(insts: &mut Vec<Instruction>, first: usize, second: usize) -> (r: bool)
    requires
        first < old(insts)@.len(),
        second < old(insts)@.len(),
    ensures
        r == (old(insts)@[first as int].opcode == Opcode::LoadI && old(insts)@[second as int].opcode
            == Opcode::Mov && old(insts)@[second as int].b == old(insts)@[first as int].a),
        r ==> final(insts)@ == old(insts)@.update(
            second as int,
            Instruction::load_i_spec(old(insts)@[second as int].a, old(insts)@[first as int].sbx),
        ),
        !r ==> final(insts)@ == old(insts)@,
{
    if insts[first].opcode != Opcode::LoadI || insts[second].opcode != Opcode::Mov {
        return false;
    }
    if insts[second].b != insts[first].a {
        return false;
    }
    let value = insts[first].sbx;
    let dst = insts[second].a;
    insts.set(second, Instruction::new_load_i(dst, value));
    true
}

/// `LoadI x, m; LoadI y, n; Add _, x, y` (x and y distinct) becomes the
/// same loads followed by `LoadI acc, m + n` when the sum fits in 16 bits.
pub fn fold_const_add(insts: &mut Vec<Instruction>, first: usize, second: usize, third: usize) -> (r:
    bool)
    requires
        first < old(insts)@.len(),
        second < old(insts)@.len(),
        third < old(insts)@.len(),
    ensures
        r == ({
            let s = old(insts)@;
            &&& s[first as int].opcode == Opcode::LoadI
            &&& s[second as int].opcode == Opcode::LoadI
            &&& s[third as int].opcode == Opcode::Add
            &&& s[first as int].a != s[second as int].a
            &&& s[third as int].b == s[first as int].a
            &&& s[third as int].c == s[second as int].a
            &&& i16::MIN <= s[first as int].sbx + s[second as int].sbx <= i16::MAX
        }),
        r ==> final(insts)@ == old(insts)@.update(
            third as int,
            Instruction::load_i_spec(
                ACC,
                (old(insts)@[first as int].sbx + old(insts)@[second as int].sbx) as i16,
            ),
        ),
        !r ==> final(insts)@ == old(insts)@,
{
    if insts[first].opcode != Opcode::LoadI || insts[second].opcode != Opcode::LoadI
        || insts[third].opcode != Opcode::Add {
        return false;
    }
    if insts[first].a == insts[second].a {
        return false;
    }
    if insts[third].b != insts[first].a || insts[third].c != insts[second].a {
        return false;
    }
    let folded: i32 = insts[first].sbx as i32 + insts[second].sbx as i32;
    if !(-32768 <= folded && folded <= 32767) {
        return false;
    }
    insts.set(third, Instruction::new_load_i(ACC, folded as i16));
    true
}

/// The kept positions of `start..end`, in order.
pub open spec fn kept_positions(s: Seq<Instruction>, idx: Seq<usize>, start: int, end: int) -> bool {
    &&& forall|k: int| 0 <= k < idx.len() ==> start <= #[trigger] idx[k] < end
    &&& forall|k: int| 0 <= k < idx.len() ==> !s[#[trigger] idx[k] as int].removed
    &&& forall|k: int, l: int| 0 <= k < l < idx.len() ==> #[trigger] idx[k] < #[trigger] idx[l]
}

/// Every kept position of `start..end` is listed.
pub open spec fn lists_all_kept(s: Seq<Instruction>, idx: Seq<usize>, start: int, end: int) -> bool {
    forall|m: int|
        start <= m < end && !#[trigger] s[m].removed ==> exists|k: int| 0 <= k < idx.len() && idx[k] == m
}

/// The kept positions of `start..end`, in order.
pub fn collect_kept(insts: &Vec<Instruction>, start: usize, end: usize) -> (r: Vec<usize>)
    requires
        start <= end <= insts@.len(),
    ensures
        kept_positions(insts@, r@, start as int, end as int),
        lists_all_kept(insts@, r@, start as int, end as int),
{
    let mut out: Vec<usize> = Vec::new();
    let mut i: usize = start;
    while i < end
        invariant
            start <= i <= end <= insts@.len(),
            kept_positions(insts@, out@, start as int, i as int),
            lists_all_kept(insts@, out@, start as int, i as int),
        decreases end - i,
    {
        let ghost prev = out@;
        if !insts[i].removed {
            out.push(i);
            proof {
                assert(out@[prev.len() as int] == i);
            }
        }
        proof {
            assert forall|m: int| start <= m < i + 1 && !#[trigger] insts@[m].removed implies exists|k: int|
                0 <= k < out@.len() && out@[k] == m by {
                if m < i {
                    let k = choose|k: int| 0 <= k < prev.len() && prev[k] == m;
                    assert(out@[k] == m);
                } else {
                    assert(out@[prev.len() as int] == m);
                }
            }
        }
        i = i + 1;
    }
    out
}

/// `q` is the first kept position after `p`, and before `end`.
pub open spec fn next_kept(s: Seq<Instruction>, p: int, q: int, end: int) -> bool {
    &&& p < q < end
    &&& !s[q].removed
    &&& forall|m: int| p < m < q ==> #[trigger] s[m].removed
}

/// `p`, `q`, `t` are consecutive kept positions of the block `start..end`.
pub open spec fn kept_triple(s: Seq<Instruction>, start: int, end: int, p: int, q: int, t: int) -> bool {
    &&& start <= p
    &&& !s[p].removed
    &&& next_kept(s, p, q, end)
    &&& next_kept(s, q, t, end)
}

/// Consecutive entries of the list of kept positions are consecutive kept
/// positions.
proof fn lemma_live_next(s: Seq<Instruction>, live: Seq<usize>, start: int, end: int, k: int)
    requires
        kept_positions(s, live, start, end),
        lists_all_kept(s, live, start, end),
        0 <= k,
        k + 1 < live.len(),
    ensures
        next_kept(s, live[k] as int, live[k + 1] as int, end),
{
    assert forall|m: int| live[k] < m < live[k + 1] implies #[trigger] s[m].removed by {
        if !s[m].removed {
            let j = choose|j: int| 0 <= j < live.len() && live[j] == m;
            if j <= k {
                if j < k {
                    assert(live[j] < live[k]);
                }
            } else if j > k + 1 {
                assert(live[k + 1] < live[j]);
            }
        }
    }
    assert(live[k] < live[k + 1]);
    assert(start <= live[k + 1] < end);
}

/// Consecutive kept positions are consecutive entries of the list.
proof fn lemma_triple_in_live(
    s: Seq<Instruction>,
    live: Seq<usize>,
    start: int,
    end: int,
    p: int,
    q: int,
    t: int,
) -> (k: int)
    requires
        kept_positions(s, live, start, end),
        lists_all_kept(s, live, start, end),
        kept_triple(s, start, end, p, q, t),
    ensures
        0 <= k,
        k + 2 < live.len(),
        live[k] == p,
        live[k + 1] == q,
        live[k + 2] == t,
{
    assert(!s[p].removed);
    let k = choose|k: int| 0 <= k < live.len() && live[k] == p;
    assert(!s[q].removed);
    let j = choose|j: int| 0 <= j < live.len() && live[j] == q;
    if j <= k {
        if j < k {
            assert(live[j] < live[k]);
        }
    }
    if j > k + 1 {
        assert(live[k] < live[k + 1] < live[j]);
        assert(s[live[k + 1] as int].removed);
    }
    assert(j == k + 1);
    assert(!s[t].removed);
    let l = choose|l: int| 0 <= l < live.len() && live[l] == t;
    if l <= j {
        if l < j {
            assert(live[l] < live[j]);
        }
    }
    if l > j + 1 {
        assert(live[j] < live[j + 1] < live[l]);
        assert(s[live[j + 1] as int].removed);
    }
    k
}

/// Positions keep their kept-or-removed state.
pub open spec fn same_removed(a: Seq<Instruction>, b: Seq<Instruction>) -> bool {
    &&& a.len() == b.len()
    &&& forall|i: int| 0 <= i < a.len() ==> #[trigger] b[i].removed == a[i].removed
}

/// `LoadI x, m; LoadI y, n; Add _, x, y` with `x` and `y` distinct and
/// `m + n` within 16 bits.
pub open spec fn foldable(x: Instruction, y: Instruction, z: Instruction) -> bool {
    &&& x.opcode == Opcode::LoadI
    &&& y.opcode == Opcode::LoadI
    &&& z.opcode == Opcode::Add
    &&& x.a != y.a
    &&& z.b == x.a
    &&& z.c == y.a
    &&& i16::MIN <= x.sbx + y.sbx <= i16::MAX
}

/// The load that replaces a folded addition.
pub open spec fn folded(x: Instruction, y: Instruction) -> Instruction {
    Instruction::load_i_spec(ACC, (x.sbx + y.sbx) as i16)
}

/// One folding: the addition of a foldable kept triple becomes its load.
pub open spec fn fold_step(a: Seq<Instruction>, b: Seq<Instruction>, start: int, end: int) -> bool {
    exists|p: int, q: int, t: int|
        #[trigger] kept_triple(a, start, end, p, q, t) && foldable(a[p], a[q], a[t]) && b == a.update(
            t,
            folded(a[p], a[q]),
        )
}

/// `b` is `a` after `n` foldings.
pub open spec fn folds_to(a: Seq<Instruction>, b: Seq<Instruction>, start: int, end: int, n: nat) -> bool
    decreases n,
{
    if n == 0 {
        a == b
    } else {
        exists|m: Seq<Instruction>| folds_to(a, m, start, end, (n - 1) as nat) && #[trigger] fold_step(m, b, start, end)
    }
}

/// No kept triple of the block is foldable.
pub open spec fn fold_normal(s: Seq<Instruction>, start: int, end: int) -> bool {
    forall|p: int, q: int, t: int|
        #[trigger] kept_triple(s, start, end, p, q, t) ==> !foldable(s[p], s[q], s[t])
}

/// Folds `LoadI; LoadI; Add` triples of kept instructions until nothing
/// changes: the result is the block after some foldings, and no kept
/// triple is foldable any more.
pub fn constant_fold_block(insts: &mut Vec<Instruction>, start: usize, end: usize) -> (r: bool)
    requires
        start <= end <= old(insts)@.len(),
    ensures
        same_outside(old(insts)@, final(insts)@, start as int, end as int),
        exists|n: nat| folds_to(old(insts)@, final(insts)@, start as int, end as int, n),
        fold_normal(final(insts)@, start as int, end as int),
        !r ==> final(insts)@ == old(insts)@,
{
    let mut changed = false;
    let ghost mut steps: nat = 0;
    loop
        invariant
            start <= end <= insts@.len(),
            same_outside(old(insts)@, insts@, start as int, end as int),
            same_removed(old(insts)@, insts@),
            folds_to(old(insts)@, insts@, start as int, end as int, steps),
            !changed ==> insts@ == old(insts)@,
        ensures
            same_outside(old(insts)@, insts@, start as int, end as int),
            folds_to(old(insts)@, insts@, start as int, end as int, steps),
            fold_normal(insts@, start as int, end as int),
            !changed ==> insts@ == old(insts)@,
        decreases kept_count(insts@, start as int, end as int), churn_count(
            insts@,
            start as int,
            end as int,
        ),
    {
        let ghost round_start = insts@;
        let mut local_change = false;
        let live = collect_kept(insts, start, end);
        let mut pos: usize = 0;
        while pos < live.len()
            invariant
                start <= end <= insts@.len(),
                insts@.len() == round_start.len(),
                kept_positions(round_start, live@, start as int, end as int),
                lists_all_kept(round_start, live@, start as int, end as int),
                same_outside(old(insts)@, insts@, start as int, end as int),
                same_outside(round_start, insts@, start as int, end as int),
                same_removed(old(insts)@, insts@),
                same_removed(round_start, insts@),
                folds_to(old(insts)@, insts@, start as int, end as int, steps),
                progress(insts@, round_start, start as int, end as int, local_change),
                !local_change ==> forall|k: int|
                    0 <= k < pos && k + 2 < live@.len() ==> !foldable(
                        round_start[#[trigger] live@[k] as int],
                        round_start[live@[k + 1] as int],
                        round_start[live@[k + 2] as int],
                    ),
            decreases live@.len() - pos,
        {
            let index = live[pos];
            if !insts[index].removed && live.len() - pos > 2 {
                let next = live[pos + 1];
                let third = live[pos + 2];
                if !insts[next].removed && !insts[third].removed {
                    let ghost before = insts@;
                    if fold_const_add(insts, index, next, third) {
                        proof {
                            lemma_counts_update(
                                before,
                                start as int,
                                end as int,
                                third as int,
                                folded(before[index as int], before[next as int]),
                            );
                            lemma_step(before, insts@, round_start, start as int, end as int, local_change);
                            lemma_live_next(round_start, live@, start as int, end as int, pos as int);
                            lemma_live_next(round_start, live@, start as int, end as int, pos + 1);
                            assert forall|m: int| index < m < next implies #[trigger] before[m].removed by {
                                assert(round_start[m].removed);
                            }
                            assert forall|m: int| next < m < third implies #[trigger] before[m].removed by {
                                assert(round_start[m].removed);
                            }
                            assert(kept_triple(before, start as int, end as int, index as int, next as int, third as int));
                            assert(fold_step(before, insts@, start as int, end as int));
                            assert(folds_to(old(insts)@, insts@, start as int, end as int, steps + 1));
                            steps = steps + 1;
                        }
                        local_change = true;
                    }
                }
            }
            pos = pos + 1;
        }
        if !local_change {
            proof {
                assert forall|p: int, q: int, t: int|
                    #[trigger] kept_triple(insts@, start as int, end as int, p, q, t) implies !foldable(
                    insts@[p],
                    insts@[q],
                    insts@[t],
                ) by {
                    let k = lemma_triple_in_live(round_start, live@, start as int, end as int, p, q, t);
                    assert(live@[k] == p);
                }
            }
            break;
        }
        changed = true;
    }
    changed
}

/// Neither a copy nor an addition.
pub open spec fn plain_op(op: Opcode) -> bool {
    op != Opcode::Mov && op != Opcode::Add
}

/// What a pattern step may assume: the block frame, the scanned
/// instruction kept, and progress so far.
pub open spec fn step_ready(
    s: Seq<Instruction>,
    rs: Seq<Instruction>,
    start: int,
    end: int,
    index: int,
    lc: bool,
) -> bool {
    &&& s.len() == rs.len()
    &&& 0 <= start <= index < end <= s.len()
    &&& same_outside(rs, s, start, end)
    &&& !s[index].removed
    &&& progress(s, rs, start, end, lc)
}

/// Removes `k` when `cond` holds.
fn try_remove(
    insts: &mut Vec<Instruction>,
    k: usize,
    cond: bool,
    start: usize,
    end: usize,
    index: usize,
    Ghost(rs): Ghost<Seq<Instruction>>,
    lc: bool,
) -> (r: bool)
    requires
        step_ready(old(insts)@, rs, start as int, end as int, index as int, lc),
        start <= k < end,
        cond && !lc ==> !old(insts)@[k as int].removed,
    ensures
        cond ==> final(insts)@ == old(insts)@.update(k as int, removed_copy(old(insts)@[k as int])),
        !cond ==> final(insts)@ == old(insts)@,
        r == (lc || cond),
        progress(final(insts)@, rs, start as int, end as int, r),
        final(insts)@.len() == rs.len(),
        same_outside(rs, final(insts)@, start as int, end as int),
        k != index ==> step_ready(final(insts)@, rs, start as int, end as int, index as int, r),
{
    if cond {
        let ghost before = insts@;
        remove_at(insts, k);
        proof {
            lemma_remove_measure(before, start as int, end as int, k as int);
            lemma_step(before, insts@, rs, start as int, end as int, lc);
        }
        true
    } else {
        lc
    }
}

/// Replaces `index` by `fused` and removes `next` when `cond` holds.
fn try_fuse2(
    insts: &mut Vec<Instruction>,
    index: usize,
    next: usize,
    cond: bool,
    fused: Instruction,
    start: usize,
    end: usize,
    Ghost(rs): Ghost<Seq<Instruction>>,
    lc: bool,
) -> (r: bool)
    requires
        step_ready(old(insts)@, rs, start as int, end as int, index as int, lc),
        start <= next < end,
        index != next,
        cond ==> plain_op(old(insts)@[index as int].opcode) && !fused.removed && plain_op(
            fused.opcode,
        ),
        cond && !lc ==> !old(insts)@[next as int].removed,
        cond ==> kept_pair(old(insts)@, start as int, end as int, index as int, next as int) && pair_fused(
            old(insts)@[index as int],
            old(insts)@[next as int],
            fused,
        ),
    ensures
        cond ==> final(insts)@ == old(insts)@.update(index as int, fused).update(
            next as int,
            removed_copy(old(insts)@[next as int]),
        ),
        !cond ==> final(insts)@ == old(insts)@,
        r == (lc || cond),
        step_ready(final(insts)@, rs, start as int, end as int, index as int, r),
        cond ==> fuse_pair_step(old(insts)@, final(insts)@, start as int, end as int),
        removed_stays(old(insts)@, final(insts)@),
        forall|m: int| 0 <= m < old(insts)@.len() && m != index && m != next ==> #[trigger] final(insts)@[m]
            == old(insts)@[m],
{
    if cond {
        let ghost s0 = insts@;
        insts.set(index, fused);
        let ghost s1 = insts@;
        remove_at(insts, next);
        proof {
            lemma_counts_update(s0, start as int, end as int, index as int, fused);
            lemma_counts_update(s1, start as int, end as int, next as int, removed_copy(s1[next as int]));
            lemma_step(s0, insts@, rs, start as int, end as int, lc);
            assert(s1[next as int] == s0[next as int]);
            assert(kept_pair(s0, start as int, end as int, index as int, next as int) && pair_fused(
                s0[index as int],
                s0[next as int],
                fused,
            ));
        }
        true
    } else {
        lc
    }
}

/// Replaces `index` by `fused` and removes `next` and `third` when `cond`
/// holds.
fn try_fuse3(
    insts: &mut Vec<Instruction>,
    index: usize,
    next: usize,
    third: usize,
    cond: bool,
    fused: Instruction,
    start: usize,
    end: usize,
    Ghost(rs): Ghost<Seq<Instruction>>,
    lc: bool,
) -> (r: bool)
    requires
        step_ready(old(insts)@, rs, start as int, end as int, index as int, lc),
        start <= next < end,
        start <= third < end,
        index != next,
        index != third,
        next != third,
        cond ==> plain_op(old(insts)@[index as int].opcode) && !fused.removed && plain_op(
            fused.opcode,
        ),
        cond && !lc ==> !old(insts)@[next as int].removed,
        cond ==> kept_triple(old(insts)@, start as int, end as int, index as int, next as int, third as int)
            && triple_fused(
            old(insts)@[index as int],
            old(insts)@[next as int],
            old(insts)@[third as int],
            fused,
        ),
    ensures
        cond ==> final(insts)@ == old(insts)@.update(index as int, fused).update(
            next as int,
            removed_copy(old(insts)@[next as int]),
        ).update(third as int, removed_copy(old(insts)@[third as int])),
        !cond ==> final(insts)@ == old(insts)@,
        r == (lc || cond),
        step_ready(final(insts)@, rs, start as int, end as int, index as int, r),
        cond ==> fuse_triple_step(old(insts)@, final(insts)@, start as int, end as int),
        removed_stays(old(insts)@, final(insts)@),
        forall|m: int|
            0 <= m < old(insts)@.len() && m != index && m != next && m != third ==> #[trigger] final(insts)@[m]
                == old(insts)@[m],
{
    if cond {
        let ghost s0 = insts@;
        insts.set(index, fused);
        let ghost s1 = insts@;
        remove_at(insts, next);
        let ghost s2 = insts@;
        remove_at(insts, third);
        proof {
            lemma_counts_update(s0, start as int, end as int, index as int, fused);
            lemma_counts_update(s1, start as int, end as int, next as int, removed_copy(s1[next as int]));
            lemma_counts_update(s2, start as int, end as int, third as int, removed_copy(s2[third as int]));
            lemma_step(s0, insts@, rs, start as int, end as int, lc);
            assert(s1[next as int] == s0[next as int]);
            assert(s2[third as int] == s0[third as int]);
            assert(kept_triple(s0, start as int, end as int, index as int, next as int, third as int)
                && triple_fused(s0[index as int], s0[next as int], s0[third as int], fused));
        }
        true
    } else {
        lc
    }
}

/// Applies `rewrite_load_move` to a kept pair.
fn try_load_move(
    insts: &mut Vec<Instruction>,
    index: usize,
    next: usize,
    start: usize,
    end: usize,
    Ghost(rs): Ghost<Seq<Instruction>>,
    lc: bool,
) -> (r: bool)
    requires
        step_ready(old(insts)@, rs, start as int, end as int, index as int, lc),
        start <= next < end,
        index != next,
        old(insts)@[index as int].opcode == Opcode::LoadI ==> !old(insts)@[next as int].removed,
    ensures
        step_ready(final(insts)@, rs, start as int, end as int, index as int, r),
        !r ==> final(insts)@ == old(insts)@,
        r == (lc || (old(insts)@[index as int].opcode == Opcode::LoadI && old(insts)@[next as int].opcode
            == Opcode::Mov && old(insts)@[next as int].b == old(insts)@[index as int].a)),
        final(insts)@[index as int] == old(insts)@[index as int],
        load_then_move(old(insts)@[index as int], old(insts)@[next as int]) ==> final(insts)@
            == old(insts)@.update(
            next as int,
            Instruction::load_i_spec(old(insts)@[next as int].a, old(insts)@[index as int].sbx),
        ),
        !load_then_move(old(insts)@[index as int], old(insts)@[next as int]) ==> final(insts)@
            == old(insts)@,
{
    let ghost before = insts@;
    if rewrite_load_move(insts, index, next) {
        proof {
            lemma_counts_update(
                before,
                start as int,
                end as int,
                next as int,
                Instruction::load_i_spec(before[next as int].a, before[index as int].sbx),
            );
            lemma_step(before, insts@, rs, start as int, end as int, lc);
        }
        true
    } else {
        lc
    }
}

/// Applies `fold_const_add` to a kept triple.
fn try_fold(
    insts: &mut Vec<Instruction>,
    index: usize,
    next: usize,
    third: usize,
    start: usize,
    end: usize,
    Ghost(rs): Ghost<Seq<Instruction>>,
    lc: bool,
) -> (r: bool)
    requires
        step_ready(old(insts)@, rs, start as int, end as int, index as int, lc),
        start <= next < end,
        start <= third < end,
        index != third,
        !old(insts)@[third as int].removed,
    ensures
        step_ready(final(insts)@, rs, start as int, end as int, index as int, r),
        !r ==> final(insts)@ == old(insts)@,
        r == (lc || foldable(old(insts)@[index as int], old(insts)@[next as int], old(insts)@[third as int])),
        final(insts)@[index as int] == old(insts)@[index as int],
        foldable(old(insts)@[index as int], old(insts)@[next as int], old(insts)@[third as int])
            ==> final(insts)@ == old(insts)@.update(
            third as int,
            folded(old(insts)@[index as int], old(insts)@[next as int]),
        ),
        !foldable(old(insts)@[index as int], old(insts)@[next as int], old(insts)@[third as int])
            ==> final(insts)@ == old(insts)@,
{
    let ghost before = insts@;
    if fold_const_add(insts, index, next, third) {
        proof {
            lemma_counts_update(
                before,
                start as int,
                end as int,
                third as int,
                Instruction::load_i_spec(ACC, (before[index as int].sbx + before[next as int].sbx) as i16),
            );
            lemma_step(before, insts@, rs, start as int, end as int, lc);
        }
        true
    } else {
        lc
    }
}

/// The instruction with the given operation and fields.
fn inst(opcode: Opcode, a: u8, b: u8, c: u8, bx: u16, sbx: i16, target: Option<usize>) -> (r:
    Instruction)
    ensures
        r == (Instruction { opcode, a, b, c, bx, sbx, target, removed: false }),
{
    Instruction { opcode, a, b, c, bx, sbx, target, removed: false }
}

/// A copy of a register into itself.
pub open spec fn self_move(x: Instruction) -> bool {
    x.opcode == Opcode::Mov && x.a == x.b
}

/// A copy followed by the copy back.
pub open spec fn undoing_moves(x: Instruction, y: Instruction) -> bool {
    x.opcode == Opcode::Mov && y.opcode == Opcode::Mov && y.a == x.b && y.b == x.a
}

/// An immediate load followed by a copy of the loaded register.
pub open spec fn load_then_move(x: Instruction, y: Instruction) -> bool {
    x.opcode == Opcode::LoadI && y.opcode == Opcode::Mov && y.b == x.a
}

/// `p` is a kept position of the block `start..end`.
pub open spec fn kept_at(s: Seq<Instruction>, start: int, end: int, p: int) -> bool {
    start <= p < end && !s[p].removed
}

/// `p` and `q` are consecutive kept positions of the block `start..end`.
pub open spec fn kept_pair(s: Seq<Instruction>, start: int, end: int, p: int, q: int) -> bool {
    start <= p && !s[p].removed && next_kept(s, p, q, end)
}

/// One basic rewrite: a kept self-copy is removed, a copy undone by the
/// next kept copy loses the second, or a copy of a just-loaded immediate
/// becomes a load of that immediate.
pub open spec fn basic_step(a: Seq<Instruction>, b: Seq<Instruction>, start: int, end: int) -> bool {
    ||| exists|p: int|
        #[trigger] kept_at(a, start, end, p) && self_move(a[p]) && b == a.update(p, removed_copy(a[p]))
    ||| exists|p: int, q: int|
        #[trigger] kept_pair(a, start, end, p, q) && undoing_moves(a[p], a[q]) && b == a.update(
            q,
            removed_copy(a[q]),
        )
    ||| exists|p: int, q: int|
        #[trigger] kept_pair(a, start, end, p, q) && load_then_move(a[p], a[q]) && b == a.update(
            q,
            Instruction::load_i_spec(a[q].a, a[p].sbx),
        )
}

/// `b` is `a` after `n` basic rewrites.
pub open spec fn basic_to(a: Seq<Instruction>, b: Seq<Instruction>, start: int, end: int, n: nat) -> bool
    decreases n,
{
    if n == 0 {
        a == b
    } else {
        exists|m: Seq<Instruction>| basic_to(a, m, start, end, (n - 1) as nat) && #[trigger] basic_step(m, b, start, end)
    }
}

/// No basic rewrite applies in the block.
pub open spec fn basic_normal(s: Seq<Instruction>, start: int, end: int) -> bool {
    &&& forall|p: int| #[trigger] kept_at(s, start, end, p) ==> !self_move(s[p])
    &&& forall|p: int, q: int|
        #[trigger] kept_pair(s, start, end, p, q) ==> !undoing_moves(s[p], s[q]) && !load_then_move(
            s[p],
            s[q],
        )
}

/// Removed positions stay removed.
pub open spec fn removed_stays(a: Seq<Instruction>, b: Seq<Instruction>) -> bool {
    &&& a.len() == b.len()
    &&& forall|i: int| 0 <= i < a.len() && a[i].removed ==> #[trigger] b[i].removed
}

proof fn lemma_removed_stays_trans(a: Seq<Instruction>, b: Seq<Instruction>, c: Seq<Instruction>)
    requires
        removed_stays(a, b),
        removed_stays(b, c),
    ensures
        removed_stays(a, c),
{
}

/// A kept position is listed, and so is the kept position after it.
proof fn lemma_pair_in_live(s: Seq<Instruction>, live: Seq<usize>, start: int, end: int, p: int, q: int) -> (k: int)
    requires
        kept_positions(s, live, start, end),
        lists_all_kept(s, live, start, end),
        kept_pair(s, start, end, p, q),
    ensures
        0 <= k,
        k + 1 < live.len(),
        live[k] == p,
        live[k + 1] == q,
{
    assert(!s[p].removed);
    let k = choose|k: int| 0 <= k < live.len() && live[k] == p;
    assert(!s[q].removed);
    let j = choose|j: int| 0 <= j < live.len() && live[j] == q;
    if j <= k {
        if j < k {
            assert(live[j] < live[k]);
        }
    }
    if j > k + 1 {
        assert(live[k] < live[k + 1] < live[j]);
        assert(s[live[k + 1] as int].removed);
    }
    k
}

/// A listed kept position is kept.
proof fn lemma_at_in_live(s: Seq<Instruction>, live: Seq<usize>, start: int, end: int, p: int) -> (k: int)
    requires
        lists_all_kept(s, live, start, end),
        kept_at(s, start, end, p),
    ensures
        0 <= k < live.len(),
        live[k] == p,
{
    assert(!s[p].removed);
    choose|k: int| 0 <= k < live.len() && live[k] == p
}

/// Drops self-copies and copies undone by the next copy, and turns a copy
/// of a just-loaded immediate into a load, until nothing changes: the
/// result is the block after some such rewrites, and none applies any
/// more.
pub fn optimize_basic_peephole_block(insts: &mut Vec<Instruction>, start: usize, end: usize) -> (r:
    bool)
    requires
        start <= end <= old(insts)@.len(),
    ensures
        same_outside(old(insts)@, final(insts)@, start as int, end as int),
        exists|n: nat| basic_to(old(insts)@, final(insts)@, start as int, end as int, n),
        basic_normal(final(insts)@, start as int, end as int),
        !r ==> final(insts)@ == old(insts)@,
{
    let mut changed = false;
    let ghost mut steps: nat = 0;
    loop
        invariant
            start <= end <= insts@.len(),
            same_outside(old(insts)@, insts@, start as int, end as int),
            basic_to(old(insts)@, insts@, start as int, end as int, steps),
            !changed ==> insts@ == old(insts)@,
        ensures
            same_outside(old(insts)@, insts@, start as int, end as int),
            basic_to(old(insts)@, insts@, start as int, end as int, steps),
            basic_normal(insts@, start as int, end as int),
            !changed ==> insts@ == old(insts)@,
        decreases kept_count(insts@, start as int, end as int), churn_count(
            insts@,
            start as int,
            end as int,
        ),
    {
        let ghost rs = insts@;
        let mut lc = false;
        let live = collect_kept(insts, start, end);
        let mut pos: usize = 0;
        while pos < live.len()
            invariant
                start <= end <= insts@.len(),
                insts@.len() == rs.len(),
                kept_positions(rs, live@, start as int, end as int),
                lists_all_kept(rs, live@, start as int, end as int),
                same_outside(old(insts)@, insts@, start as int, end as int),
                same_outside(rs, insts@, start as int, end as int),
                removed_stays(rs, insts@),
                basic_to(old(insts)@, insts@, start as int, end as int, steps),
                progress(insts@, rs, start as int, end as int, lc),
                pos <= live@.len(),
                !lc ==> forall|k: int|
                    0 <= k < pos ==> !self_move(rs[#[trigger] live@[k] as int]) && (k + 1 < live@.len()
                        ==> !undoing_moves(rs[live@[k] as int], rs[live@[k + 1] as int])
                        && !load_then_move(rs[live@[k] as int], rs[live@[k + 1] as int])),
            decreases live@.len() - pos,
        {
            let index = live[pos];
            pos = pos + 1;
            if insts[index].removed {
                continue;
            }
            let cur = insts[index];
            if cur.opcode == Opcode::Mov && cur.a == cur.b {
                let ghost before = insts@;
                lc = try_remove(insts, index, true, start, end, index, Ghost(rs), lc);
                proof {
                    assert(kept_at(before, start as int, end as int, index as int));
                    assert(basic_step(before, insts@, start as int, end as int));
                    assert(basic_to(old(insts)@, insts@, start as int, end as int, steps + 1));
                    steps = steps + 1;
                }
                continue;
            }
            if pos >= live.len() {
                continue;
            }
            let next = live[pos];
            if insts[next].removed {
                continue;
            }
            proof {
                lemma_live_next(rs, live@, start as int, end as int, pos - 1);
                assert forall|m: int| index < m < next implies #[trigger] insts@[m].removed by {
                    assert(rs[m].removed);
                }
                assert(kept_pair(insts@, start as int, end as int, index as int, next as int));
            }
            let n = insts[next];
            let swap = cur.opcode == Opcode::Mov && n.opcode == Opcode::Mov && n.a == cur.b && n.b
                == cur.a;
            let ghost before = insts@;
            lc = try_remove(insts, next, swap, start, end, index, Ghost(rs), lc);
            proof {
                if swap {
                    assert(basic_step(before, insts@, start as int, end as int));
                    assert(basic_to(old(insts)@, insts@, start as int, end as int, steps + 1));
                    steps = steps + 1;
                }
            }
            let n2 = insts[next];
            if n2.opcode == Opcode::Mov && n2.a == n2.b {
                let ghost before2 = insts@;
                lc = try_remove(insts, next, true, start, end, index, Ghost(rs), lc);
                proof {
                    assert(!swap);
                    assert(kept_at(before2, start as int, end as int, next as int));
                    assert(basic_step(before2, insts@, start as int, end as int));
                    assert(basic_to(old(insts)@, insts@, start as int, end as int, steps + 1));
                    steps = steps + 1;
                }
                continue;
            }
            let ghost before3 = insts@;
            lc = try_load_move(insts, index, next, start, end, Ghost(rs), lc);
            proof {
                if load_then_move(before3[index as int], before3[next as int]) {
                    assert(!swap);
                    assert(kept_pair(before3, start as int, end as int, index as int, next as int));
                    assert(basic_step(before3, insts@, start as int, end as int));
                    assert(basic_to(old(insts)@, insts@, start as int, end as int, steps + 1));
                    steps = steps + 1;
                }
            }
        }
        if !lc {
            proof {
                assert forall|p: int| #[trigger] kept_at(insts@, start as int, end as int, p) implies !self_move(
                    insts@[p],
                ) by {
                    let k = lemma_at_in_live(rs, live@, start as int, end as int, p);
                    assert(live@[k] == p);
                }
                assert forall|p: int, q: int| #[trigger]
                    kept_pair(insts@, start as int, end as int, p, q) implies !undoing_moves(
                    insts@[p],
                    insts@[q],
                ) && !load_then_move(insts@[p], insts@[q]) by {
                    let k = lemma_pair_in_live(rs, live@, start as int, end as int, p, q);
                    assert(live@[k] == p);
                }
            }
            break;
        }
        changed = true;
    }
    changed
}


/// An instruction with the given operation and fields, kept.
pub open spec fn fused_inst(
    opcode: Opcode,
    a: u8,
    b: u8,
    c: u8,
    bx: u16,
    sbx: i16,
    target: Option<usize>,
) -> Instruction {
    Instruction { opcode, a, b, c, bx, sbx, target, removed: false }
}

/// `f` is what the pass fuses the kept pair `x, y` into, by one of its pair
/// rules.
pub open spec fn pair_fused(x: Instruction, y: Instruction, f: Instruction) -> bool {
    ||| (x.opcode == Opcode::LoadI && y.opcode == Opcode::AddI && y.b == x.a
        && f == fused_inst(Opcode::LoadAdd, y.a, x.a, y.c, x.bx, x.sbx, None))
    ||| (x.opcode == Opcode::LoadI && y.opcode == Opcode::SubI && y.b == x.a
        && f == fused_inst(Opcode::LoadSub, y.a, x.a, y.c, x.bx, x.sbx, None))
    ||| (x.opcode == Opcode::LoadI && y.opcode == Opcode::MulI && y.b == x.a
        && f == fused_inst(Opcode::LoadMul, y.a, x.a, y.c, x.bx, x.sbx, None))
    ||| (x.opcode == Opcode::LoadI && y.opcode == Opcode::Inc && y.a == x.a
        && f == fused_inst(Opcode::LoadInc, x.a, 0, 0, x.bx, x.sbx, None))
    ||| (x.opcode == Opcode::LoadI && y.opcode == Opcode::Dec && y.a == x.a
        && f == fused_inst(Opcode::LoadDec, x.a, 0, 0, x.bx, x.sbx, None))
    ||| (x.opcode == Opcode::LoadI && y.opcode == Opcode::Eq && y.b == x.a
        && f == fused_inst(Opcode::LoadCmpEq, y.a, x.a, y.c, x.bx, x.sbx, None))
    ||| (x.opcode == Opcode::LoadI && y.opcode == Opcode::Lt && y.b == x.a
        && f == fused_inst(Opcode::LoadCmpLt, y.a, x.a, y.c, x.bx, x.sbx, None))
    ||| (x.opcode == Opcode::LoadI && y.opcode == Opcode::JmpFalse && y.a == x.a
        && f == fused_inst(Opcode::LoadJfalse, x.a, 0, 0, x.bx, x.sbx, y.target))
    ||| (x.opcode == Opcode::LoadK && y.opcode == Opcode::GetProp && y.b == x.a
        && f == fused_inst(Opcode::LoadGetProp, y.a, x.a, y.c, x.bx, x.sbx, None))
    ||| (x.opcode == Opcode::GetProp && y.opcode == Opcode::GetProp && y.b == x.a
        && f == fused_inst(Opcode::GetProp2Ic, y.a, x.b, x.c, 0, 0, None))
    ||| (x.opcode == Opcode::LoadK && y.opcode == Opcode::GetIdxFast && y.b == x.a
        && f == fused_inst(Opcode::GetElem, y.a, x.a, y.c, x.bx, x.sbx, None))
    ||| (x.opcode == Opcode::LoadK && y.opcode == Opcode::SetIdxFast && y.b == x.a
        && f == fused_inst(Opcode::SetElem, y.a, x.a, y.c, x.bx, x.sbx, None))
    ||| (x.opcode == Opcode::GetProp && y.opcode == Opcode::GetIdxFast && y.b == x.a
        && f == fused_inst(Opcode::GetPropElem, y.a, x.b, x.c, 0, 0, None))
    ||| (x.opcode == Opcode::GetProp && y.opcode == Opcode::Call && y.a == x.a && y.b == 0
        && f == fused_inst(Opcode::CallMethodIc, x.b, x.c, 0, 0, 0, None))
    ||| (x.opcode == Opcode::GetProp && y.opcode == Opcode::Call && y.a == x.a && y.b == 1
        && f == fused_inst(Opcode::CallMethod1, x.b, 0, 0, x.c as u16, x.c as i16, None))
    ||| (x.opcode == Opcode::GetProp && y.opcode == Opcode::Call && y.a == x.a && y.b == 2
        && f == fused_inst(Opcode::CallMethod2, x.b, 0, 0, x.c as u16, x.c as i16, None))
    ||| (x.opcode == Opcode::GetPropIc && y.opcode == Opcode::Call && y.a == x.a && y.b == 0
        && f == fused_inst(Opcode::GetPropIcCall, x.a, x.b, x.c, 0, 0, None))
    ||| (x.opcode == Opcode::IncAcc && y.opcode == Opcode::JmpFalse && y.a == ACC
        && f == fused_inst(Opcode::IncJmpFalseLoop, ACC, 0, 0, 0, 0, y.target))
    ||| (x.opcode == Opcode::LoadK && y.opcode == Opcode::Add && y.b == x.a
        && f == fused_inst(Opcode::LoadKAdd, y.a, x.a, y.c, x.bx, x.sbx, None))
    ||| (x.opcode == Opcode::LoadK && y.opcode == Opcode::Eq && y.b == x.a
        && f == fused_inst(Opcode::LoadKCmp, y.a, x.a, y.c, x.bx, x.sbx, None))
    ||| (x.opcode == Opcode::Eq && y.opcode == Opcode::JmpFalse && y.a == x.a
        && f == fused_inst(Opcode::CmpJmp, x.a, x.b, x.c, 0, 0, y.target))
    ||| (x.opcode == Opcode::LoadCmpEq && y.opcode == Opcode::JmpFalse && y.a == x.a
        && f == fused_inst(Opcode::LoadCmpEqJfalse, x.a, x.b, x.c, x.bx, x.sbx, y.target))
    ||| (x.opcode == Opcode::LoadCmpLt && y.opcode == Opcode::JmpFalse && y.a == x.a
        && f == fused_inst(Opcode::LoadCmpLtJfalse, x.a, x.b, x.c, x.bx, x.sbx, y.target))
    ||| (x.opcode == Opcode::LoadAcc && y.opcode == Opcode::Add && y.b == ACC
        && f == fused_inst(Opcode::AddAccReg, y.a, x.a, y.c, 0, 0, None))
    ||| (x.opcode == Opcode::Call && y.opcode == Opcode::Add && y.b == ACC
        && f == fused_inst(Opcode::Call1Add, y.a, x.a, y.c, 0, 0, None))
}

/// `f` is what the pass fuses the kept triple `x, y, z` into, by one of its
/// triple rules.
pub open spec fn triple_fused(x: Instruction, y: Instruction, z: Instruction, f: Instruction) -> bool {
    ||| (x.opcode == Opcode::LoadK && y.opcode == Opcode::GetProp && z.opcode == Opcode::Eq && y.b == x.a && z.b == y.a
        && f == fused_inst(Opcode::LoadGetPropCmpEq, z.a, x.a, z.c, x.bx, x.sbx, None))
    ||| (x.opcode == Opcode::GetProp && y.opcode == Opcode::GetProp && z.opcode == Opcode::GetProp && y.b == x.a && z.b == y.a
        && f == fused_inst(Opcode::GetProp3Ic, z.a, x.b, x.c, 0, 0, None))
    ||| (x.opcode == Opcode::GetProp && y.opcode == Opcode::GetProp && z.opcode == Opcode::Call && y.b == x.a && z.a == y.a && z.b == 0
        && f == fused_inst(Opcode::CallMethod2Ic, x.b, x.c, y.c, 0, 0, None))
    ||| (x.opcode == Opcode::LoadI && y.opcode == Opcode::Eq && z.opcode == Opcode::JmpFalse && y.b == x.a && z.a == y.a
        && f == fused_inst(Opcode::LoadCmpEqJfalse, y.a, x.a, y.c, x.bx, x.sbx, z.target))
    ||| (x.opcode == Opcode::LoadI && y.opcode == Opcode::Lt && z.opcode == Opcode::JmpFalse && y.b == x.a && z.a == y.a
        && f == fused_inst(Opcode::LoadCmpLtJfalse, y.a, x.a, y.c, x.bx, x.sbx, z.target))
    ||| (x.opcode == Opcode::Call && y.opcode == Opcode::Call && z.opcode == Opcode::Add && y.a == x.a && z.b == ACC
        && f == fused_inst(Opcode::Call2Add, z.a, x.a, z.c, 0, 0, None))
}

/// One fusion of a kept pair: the first becomes the fused instruction and
/// the second is removed.
pub open spec fn fuse_pair_step(a: Seq<Instruction>, b: Seq<Instruction>, start: int, end: int) -> bool {
    exists|p: int, q: int, f: Instruction|
        #![trigger kept_pair(a, start, end, p, q), pair_fused(a[p], a[q], f)]
        kept_pair(a, start, end, p, q) && pair_fused(a[p], a[q], f) && b == a.update(p, f).update(
            q,
            removed_copy(a[q]),
        )
}

/// One fusion of a kept triple: the first becomes the fused instruction and
/// the other two are removed.
pub open spec fn fuse_triple_step(a: Seq<Instruction>, b: Seq<Instruction>, start: int, end: int) -> bool {
    exists|p: int, q: int, t: int, f: Instruction|
        #![trigger kept_triple(a, start, end, p, q, t), triple_fused(a[p], a[q], a[t], f)]
        kept_triple(a, start, end, p, q, t) && triple_fused(a[p], a[q], a[t], f) && b == a.update(p, f).update(
            q,
            removed_copy(a[q]),
        ).update(t, removed_copy(a[t]))
}

/// One rewrite of the peephole pass: a basic rewrite, a folding, or a
/// fusion.
pub open spec fn peephole_step(a: Seq<Instruction>, b: Seq<Instruction>, start: int, end: int) -> bool {
    ||| basic_step(a, b, start, end)
    ||| fold_step(a, b, start, end)
    ||| fuse_pair_step(a, b, start, end)
    ||| fuse_triple_step(a, b, start, end)
}

/// `b` is `a` after `n` rewrites of the peephole pass.
pub open spec fn peephole_to(a: Seq<Instruction>, b: Seq<Instruction>, start: int, end: int, n: nat) -> bool
    decreases n,
{
    if n == 0 {
        a == b
    } else {
        exists|m: Seq<Instruction>| peephole_to(a, m, start, end, (n - 1) as nat) && #[trigger] peephole_step(m, b, start, end)
    }
}

/// `x` with the positions `start..end` taken from `y`.
pub open spec fn splice(x: Seq<Instruction>, y: Seq<Instruction>, start: int, end: int) -> Seq<Instruction> {
    Seq::new(x.len(), |i: int| if start <= i < end { y[i] } else { x[i] })
}

/// A rewrite looks only at its block: on a program that agrees with `m1`
/// on the block it makes the same change there, and it changes nothing
/// outside.
proof fn lemma_step_frame(m1: Seq<Instruction>, a1: Seq<Instruction>, m2: Seq<Instruction>, start: int, end: int)
    requires
        peephole_step(m1, a1, start, end),
        0 <= start <= end <= m1.len(),
        end <= m2.len(),
        forall|k: int| start <= k < end ==> #[trigger] m2[k] == m1[k],
    ensures
        peephole_step(m2, splice(m2, a1, start, end), start, end),
        same_outside(m1, a1, start, end),
{
    let r = splice(m2, a1, start, end);
    if exists|p: int| #[trigger] kept_at(m1, start, end, p) && self_move(m1[p]) && a1 == m1.update(p, removed_copy(m1[p])) {
        let p = choose|p: int| #[trigger] kept_at(m1, start, end, p) && self_move(m1[p]) && a1 == m1.update(p, removed_copy(m1[p]));
        assert(r =~= m2.update(p, removed_copy(m2[p])));
        assert(kept_at(m2, start, end, p));
        assert(basic_step(m2, r, start, end));
    } else if exists|p: int, q: int| #[trigger] kept_pair(m1, start, end, p, q) && undoing_moves(m1[p], m1[q]) && a1 == m1.update(q, removed_copy(m1[q])) {
        let (p, q) = choose|p: int, q: int| #[trigger] kept_pair(m1, start, end, p, q) && undoing_moves(m1[p], m1[q]) && a1 == m1.update(q, removed_copy(m1[q]));
        assert(r =~= m2.update(q, removed_copy(m2[q])));
        assert forall|m: int| p < m < q implies #[trigger] m2[m].removed by {
            assert(m1[m].removed);
        }
        assert(kept_pair(m2, start, end, p, q));
        assert(basic_step(m2, r, start, end));
    } else if exists|p: int, q: int| #[trigger] kept_pair(m1, start, end, p, q) && load_then_move(m1[p], m1[q]) && a1 == m1.update(q, Instruction::load_i_spec(m1[q].a, m1[p].sbx)) {
        let (p, q) = choose|p: int, q: int| #[trigger] kept_pair(m1, start, end, p, q) && load_then_move(m1[p], m1[q]) && a1 == m1.update(q, Instruction::load_i_spec(m1[q].a, m1[p].sbx));
        assert(r =~= m2.update(q, Instruction::load_i_spec(m2[q].a, m2[p].sbx)));
        assert forall|m: int| p < m < q implies #[trigger] m2[m].removed by {
            assert(m1[m].removed);
        }
        assert(kept_pair(m2, start, end, p, q));
        assert(basic_step(m2, r, start, end));
    } else if fold_step(m1, a1, start, end) {
        let (p, q, t) = choose|p: int, q: int, t: int| #[trigger] kept_triple(m1, start, end, p, q, t) && foldable(m1[p], m1[q], m1[t]) && a1 == m1.update(t, folded(m1[p], m1[q]));
        assert(r =~= m2.update(t, folded(m2[p], m2[q])));
        assert forall|m: int| p < m < q implies #[trigger] m2[m].removed by {
            assert(m1[m].removed);
        }
        assert forall|m: int| q < m < t implies #[trigger] m2[m].removed by {
            assert(m1[m].removed);
        }
        assert(kept_triple(m2, start, end, p, q, t));
        assert(fold_step(m2, r, start, end));
    } else if fuse_pair_step(m1, a1, start, end) {
        let (p, q, f) = choose|p: int, q: int, f: Instruction| #![trigger kept_pair(m1, start, end, p, q), pair_fused(m1[p], m1[q], f)] kept_pair(m1, start, end, p, q) && pair_fused(m1[p], m1[q], f) && a1 == m1.update(p, f).update(q, removed_copy(m1[q]));
        assert(r =~= m2.update(p, f).update(q, removed_copy(m2[q])));
        assert forall|m: int| p < m < q implies #[trigger] m2[m].removed by {
            assert(m1[m].removed);
        }
        assert(kept_pair(m2, start, end, p, q));
        assert(pair_fused(m2[p], m2[q], f));
        assert(fuse_pair_step(m2, r, start, end));
    } else {
        let (p, q, t, f) = choose|p: int, q: int, t: int, f: Instruction| #![trigger kept_triple(m1, start, end, p, q, t), triple_fused(m1[p], m1[q], m1[t], f)] kept_triple(m1, start, end, p, q, t) && triple_fused(m1[p], m1[q], m1[t], f) && a1 == m1.update(p, f).update(q, removed_copy(m1[q])).update(t, removed_copy(m1[t]));
        assert(r =~= m2.update(p, f).update(q, removed_copy(m2[q])).update(t, removed_copy(m2[t])));
        assert forall|m: int| p < m < q implies #[trigger] m2[m].removed by {
            assert(m1[m].removed);
        }
        assert forall|m: int| q < m < t implies #[trigger] m2[m].removed by {
            assert(m1[m].removed);
        }
        assert(kept_triple(m2, start, end, p, q, t));
        assert(triple_fused(m2[p], m2[q], m2[t], f));
        assert(fuse_triple_step(m2, r, start, end));
    }
}

/// A derivation of the peephole pass within a block carries over to any
/// program that agrees on the block, and changes nothing outside it.
pub proof fn lemma_peephole_to_frame(
    b1: Seq<Instruction>,
    a1: Seq<Instruction>,
    b2: Seq<Instruction>,
    start: int,
    end: int,
    n: nat,
)
    requires
        peephole_to(b1, a1, start, end, n),
        0 <= start <= end <= b1.len(),
        end <= b2.len(),
        forall|k: int| start <= k < end ==> #[trigger] b2[k] == b1[k],
    ensures
        peephole_to(b2, splice(b2, a1, start, end), start, end, n),
        same_outside(b1, a1, start, end),
    decreases n,
{
    if n == 0 {
        assert(splice(b2, a1, start, end) =~= b2);
    } else {
        let m = choose|m: Seq<Instruction>| peephole_to(b1, m, start, end, (n - 1) as nat) && #[trigger] peephole_step(m, a1, start, end);
        lemma_peephole_to_frame(b1, m, b2, start, end, (n - 1) as nat);
        let m2 = splice(b2, m, start, end);
        lemma_step_frame(m, a1, m2, start, end);
        assert(splice(m2, a1, start, end) =~= splice(b2, a1, start, end));
        assert(peephole_to(b2, m2, start, end, (n - 1) as nat) && peephole_step(m2, splice(b2, a1, start, end), start, end));
    }
}

proof fn lemma_basic_step_frame(m1: Seq<Instruction>, a1: Seq<Instruction>, m2: Seq<Instruction>, start: int, end: int)
    requires
        basic_step(m1, a1, start, end),
        0 <= start <= end <= m1.len(),
        end <= m2.len(),
        forall|k: int| start <= k < end ==> #[trigger] m2[k] == m1[k],
    ensures
        basic_step(m2, splice(m2, a1, start, end), start, end),
        same_outside(m1, a1, start, end),
{
    let r = splice(m2, a1, start, end);
    if exists|p: int| #[trigger] kept_at(m1, start, end, p) && self_move(m1[p]) && a1 == m1.update(p, removed_copy(m1[p])) {
        let p = choose|p: int| #[trigger] kept_at(m1, start, end, p) && self_move(m1[p]) && a1 == m1.update(p, removed_copy(m1[p]));
        assert(r =~= m2.update(p, removed_copy(m2[p])));
        assert(kept_at(m2, start, end, p));
        assert(basic_step(m2, r, start, end));
    } else if exists|p: int, q: int| #[trigger] kept_pair(m1, start, end, p, q) && undoing_moves(m1[p], m1[q]) && a1 == m1.update(q, removed_copy(m1[q])) {
        let (p, q) = choose|p: int, q: int| #[trigger] kept_pair(m1, start, end, p, q) && undoing_moves(m1[p], m1[q]) && a1 == m1.update(q, removed_copy(m1[q]));
        assert(r =~= m2.update(q, removed_copy(m2[q])));
        assert forall|m: int| p < m < q implies #[trigger] m2[m].removed by {
            assert(m1[m].removed);
        }
        assert(kept_pair(m2, start, end, p, q));
        assert(basic_step(m2, r, start, end));
    } else if exists|p: int, q: int| #[trigger] kept_pair(m1, start, end, p, q) && load_then_move(m1[p], m1[q]) && a1 == m1.update(q, Instruction::load_i_spec(m1[q].a, m1[p].sbx)) {
        let (p, q) = choose|p: int, q: int| #[trigger] kept_pair(m1, start, end, p, q) && load_then_move(m1[p], m1[q]) && a1 == m1.update(q, Instruction::load_i_spec(m1[q].a, m1[p].sbx));
        assert(r =~= m2.update(q, Instruction::load_i_spec(m2[q].a, m2[p].sbx)));
        assert forall|m: int| p < m < q implies #[trigger] m2[m].removed by {
            assert(m1[m].removed);
        }
        assert(kept_pair(m2, start, end, p, q));
        assert(basic_step(m2, r, start, end));
    }
}

proof fn lemma_fold_step_frame(m1: Seq<Instruction>, a1: Seq<Instruction>, m2: Seq<Instruction>, start: int, end: int)
    requires
        fold_step(m1, a1, start, end),
        0 <= start <= end <= m1.len(),
        end <= m2.len(),
        forall|k: int| start <= k < end ==> #[trigger] m2[k] == m1[k],
    ensures
        fold_step(m2, splice(m2, a1, start, end), start, end),
        same_outside(m1, a1, start, end),
{
    let r = splice(m2, a1, start, end);
    let (p, q, t) = choose|p: int, q: int, t: int| #[trigger] kept_triple(m1, start, end, p, q, t) && foldable(m1[p], m1[q], m1[t]) && a1 == m1.update(t, folded(m1[p], m1[q]));
    assert(r =~= m2.update(t, folded(m2[p], m2[q])));
    assert forall|m: int| p < m < q implies #[trigger] m2[m].removed by {
        assert(m1[m].removed);
    }
    assert forall|m: int| q < m < t implies #[trigger] m2[m].removed by {
        assert(m1[m].removed);
    }
    assert(kept_triple(m2, start, end, p, q, t));
    assert(fold_step(m2, r, start, end));
}

/// A derivation of basic rewrites within a block carries over to any
/// program that agrees on the block, and changes nothing outside it.
pub proof fn lemma_basic_to_frame(
    b1: Seq<Instruction>,
    a1: Seq<Instruction>,
    b2: Seq<Instruction>,
    start: int,
    end: int,
    n: nat,
)
    requires
        basic_to(b1, a1, start, end, n),
        0 <= start <= end <= b1.len(),
        end <= b2.len(),
        forall|k: int| start <= k < end ==> #[trigger] b2[k] == b1[k],
    ensures
        basic_to(b2, splice(b2, a1, start, end), start, end, n),
        same_outside(b1, a1, start, end),
    decreases n,
{
    if n == 0 {
        assert(splice(b2, a1, start, end) =~= b2);
    } else {
        let m = choose|m: Seq<Instruction>| basic_to(b1, m, start, end, (n - 1) as nat) && #[trigger] basic_step(m, a1, start, end);
        lemma_basic_to_frame(b1, m, b2, start, end, (n - 1) as nat);
        let m2 = splice(b2, m, start, end);
        lemma_basic_step_frame(m, a1, m2, start, end);
        assert(splice(m2, a1, start, end) =~= splice(b2, a1, start, end));
        assert(basic_to(b2, m2, start, end, (n - 1) as nat) && basic_step(m2, splice(b2, a1, start, end), start, end));
    }
}

/// A derivation of foldings within a block carries over to any program
/// that agrees on the block, and changes nothing outside it.
pub proof fn lemma_folds_to_frame(
    b1: Seq<Instruction>,
    a1: Seq<Instruction>,
    b2: Seq<Instruction>,
    start: int,
    end: int,
    n: nat,
)
    requires
        folds_to(b1, a1, start, end, n),
        0 <= start <= end <= b1.len(),
        end <= b2.len(),
        forall|k: int| start <= k < end ==> #[trigger] b2[k] == b1[k],
    ensures
        folds_to(b2, splice(b2, a1, start, end), start, end, n),
        same_outside(b1, a1, start, end),
    decreases n,
{
    if n == 0 {
        assert(splice(b2, a1, start, end) =~= b2);
    } else {
        let m = choose|m: Seq<Instruction>| folds_to(b1, m, start, end, (n - 1) as nat) && #[trigger] fold_step(m, a1, start, end);
        lemma_folds_to_frame(b1, m, b2, start, end, (n - 1) as nat);
        let m2 = splice(b2, m, start, end);
        lemma_fold_step_frame(m, a1, m2, start, end);
        assert(splice(m2, a1, start, end) =~= splice(b2, a1, start, end));
        assert(folds_to(b2, m2, start, end, (n - 1) as nat) && fold_step(m2, splice(b2, a1, start, end), start, end));
    }
}

/// An immediate load feeding an arithmetic, comparison or branch on it.
pub open spec fn load_pair_rule(x: Instruction, y: Instruction) -> bool {
    &&& x.opcode == Opcode::LoadI
    &&& {
        ||| (y.opcode == Opcode::AddI || y.opcode == Opcode::SubI || y.opcode == Opcode::MulI
            || y.opcode == Opcode::Eq || y.opcode == Opcode::Lt) && y.b == x.a
        ||| (y.opcode == Opcode::Inc || y.opcode == Opcode::Dec || y.opcode == Opcode::JmpFalse)
            && y.a == x.a
    }
}

/// A constant load or property read feeding a property read, an indexed
/// access or a method call.
pub open spec fn prop_pair_rule(x: Instruction, y: Instruction) -> bool {
    ||| x.opcode == Opcode::LoadK && (y.opcode == Opcode::GetProp || y.opcode == Opcode::GetIdxFast
        || y.opcode == Opcode::SetIdxFast) && y.b == x.a
    ||| x.opcode == Opcode::GetProp && (y.opcode == Opcode::GetProp || y.opcode == Opcode::GetIdxFast)
        && y.b == x.a
    ||| x.opcode == Opcode::GetProp && y.opcode == Opcode::Call && y.a == x.a && y.b == 0
}

/// Three-instruction property fusions.
pub open spec fn prop_triple_rule(x: Instruction, y: Instruction, z: Instruction) -> bool {
    ||| x.opcode == Opcode::LoadK && y.opcode == Opcode::GetProp && z.opcode == Opcode::Eq && y.b
        == x.a && z.b == y.a
    ||| x.opcode == Opcode::GetProp && y.opcode == Opcode::GetProp && z.opcode == Opcode::GetProp
        && y.b == x.a && z.b == y.a
    ||| x.opcode == Opcode::GetProp && y.opcode == Opcode::GetProp && z.opcode == Opcode::Call && y.b
        == x.a && z.a == y.a && z.b == 0
}

/// Fusions ending in calls, jumps and additions.
pub open spec fn jump_pair_rule(x: Instruction, y: Instruction) -> bool {
    ||| x.opcode == Opcode::GetProp && y.opcode == Opcode::Call && y.a == x.a && (y.b == 1 || y.b
        == 2)
    ||| x.opcode == Opcode::GetPropIc && y.opcode == Opcode::Call && y.a == x.a && y.b == 0
    ||| x.opcode == Opcode::IncAcc && y.opcode == Opcode::JmpFalse && y.a == ACC
    ||| x.opcode == Opcode::LoadK && (y.opcode == Opcode::Add || y.opcode == Opcode::Eq) && y.b
        == x.a
    ||| (x.opcode == Opcode::Eq || x.opcode == Opcode::LoadCmpEq || x.opcode == Opcode::LoadCmpLt)
        && y.opcode == Opcode::JmpFalse && y.a == x.a
    ||| (x.opcode == Opcode::LoadAcc || x.opcode == Opcode::Call) && y.opcode == Opcode::Add && y.b
        == ACC
}

/// Three-instruction fusions ending in a branch or an addition.
pub open spec fn branch_triple_rule(x: Instruction, y: Instruction, z: Instruction) -> bool {
    ||| x.opcode == Opcode::LoadI && (y.opcode == Opcode::Eq || y.opcode == Opcode::Lt) && z.opcode
        == Opcode::JmpFalse && y.b == x.a && z.a == y.a
    ||| x.opcode == Opcode::Call && y.opcode == Opcode::Call && z.opcode == Opcode::Add && y.a == x.a
        && z.b == ACC
}

/// Some pair fusion applies.
pub open spec fn fusable_pair(x: Instruction, y: Instruction) -> bool {
    load_pair_rule(x, y) || prop_pair_rule(x, y) || jump_pair_rule(x, y)
}

/// Some triple fusion or folding applies.
pub open spec fn fusable_triple(x: Instruction, y: Instruction, z: Instruction) -> bool {
    prop_triple_rule(x, y, z) || branch_triple_rule(x, y, z) || foldable(x, y, z)
}

/// No rewrite of the peephole pass applies in the block.
pub open spec fn peephole_normal(s: Seq<Instruction>, start: int, end: int) -> bool {
    &&& basic_normal(s, start, end)
    &&& forall|p: int, q: int|
        #[trigger] kept_pair(s, start, end, p, q) ==> !fusable_pair(s[p], s[q])
    &&& forall|p: int, q: int, t: int|
        #[trigger] kept_triple(s, start, end, p, q, t) ==> !fusable_triple(s[p], s[q], s[t])
}

/// Nothing applies at entry `k` of the kept list.
pub open spec fn quiet_at(rs: Seq<Instruction>, live: Seq<usize>, k: int) -> bool {
    &&& !self_move(rs[live[k] as int])
    &&& k + 1 < live.len() ==> {
        let x = rs[live[k] as int];
        let y = rs[live[k + 1] as int];
        !undoing_moves(x, y) && !load_then_move(x, y) && !fusable_pair(x, y)
    }
    &&& k + 2 < live.len() ==> !fusable_triple(
        rs[live[k] as int],
        rs[live[k + 1] as int],
        rs[live[k + 2] as int],
    )
}

/// Fusions of an immediate or constant load with its consumer.
fn fuse_pairs_loads(
    insts: &mut Vec<Instruction>,
    index: usize,
    next: usize,
    third: usize,
    has_third: bool,
    start: usize,
    end: usize,
    Ghost(rs): Ghost<Seq<Instruction>>,
    lc: bool,
    Ghost(base): Ghost<Seq<Instruction>>,
    Ghost(steps): Ghost<nat>,
) -> (r: bool)
    requires
        step_ready(old(insts)@, rs, start as int, end as int, index as int, lc),
        start <= index < next < end,
        has_third ==> next < third < end,
        !lc ==> !rs[next as int].removed,
        peephole_to(base, old(insts)@, start as int, end as int, steps),
        forall|m: int| index < m < next ==> #[trigger] old(insts)@[m].removed,
        has_third ==> forall|m: int| next < m < third ==> #[trigger] old(insts)@[m].removed,
    ensures
        step_ready(final(insts)@, rs, start as int, end as int, index as int, r),
        !r ==> final(insts)@ == old(insts)@ && !lc && !load_pair_rule(
            old(insts)@[index as int],
            old(insts)@[next as int],
        ),
        exists|n: nat| #[trigger] peephole_to(base, final(insts)@, start as int, end as int, n),
        removed_stays(old(insts)@, final(insts)@),
        forall|m: int|
            0 <= m < old(insts)@.len() && m != index && m != next && m != third ==> #[trigger] final(insts)@[m]
                == old(insts)@[m],
{
    let mut lc = lc;
    let ghost mut n: nat = steps;
    let ghost s0 = insts@;
            {
                let x = insts[index];
                let y = insts[next];
                let cond = !y.removed && x.opcode == Opcode::LoadI && y.opcode == Opcode::AddI && y.b == x.a;
                let fused = inst(Opcode::LoadAdd, y.a, x.a, y.c, x.bx, x.sbx, None);
                let ghost before = insts@;
                lc = try_fuse2(insts, index, next, cond, fused, start, end, Ghost(rs), lc);
                proof {
                    if cond {
                        assert(peephole_step(before, insts@, start as int, end as int));
                        assert(peephole_to(base, insts@, start as int, end as int, n + 1));
                        n = n + 1;
                    }
                    lemma_removed_stays_trans(s0, before, insts@);
                    assert forall|m: int| index < m < next implies #[trigger] insts@[m].removed by {
                        assert(insts@[m] == before[m]);
                    }
                    if has_third {
                        assert forall|m: int| next < m < third implies #[trigger] insts@[m].removed by {
                            assert(insts@[m] == before[m]);
                        }
                    }
                }
            }
            {
                let x = insts[index];
                let y = insts[next];
                let cond = !y.removed && x.opcode == Opcode::LoadI && y.opcode == Opcode::SubI && y.b == x.a;
                let fused = inst(Opcode::LoadSub, y.a, x.a, y.c, x.bx, x.sbx, None);
                let ghost before = insts@;
                lc = try_fuse2(insts, index, next, cond, fused, start, end, Ghost(rs), lc);
                proof {
                    if cond {
                        assert(peephole_step(before, insts@, start as int, end as int));
                        assert(peephole_to(base, insts@, start as int, end as int, n + 1));
                        n = n + 1;
                    }
                    lemma_removed_stays_trans(s0, before, insts@);
                    assert forall|m: int| index < m < next implies #[trigger] insts@[m].removed by {
                        assert(insts@[m] == before[m]);
                    }
                    if has_third {
                        assert forall|m: int| next < m < third implies #[trigger] insts@[m].removed by {
                            assert(insts@[m] == before[m]);
                        }
                    }
                }
            }
            {
                let x = insts[index];
                let y = insts[next];
                let cond = !y.removed && x.opcode == Opcode::LoadI && y.opcode == Opcode::MulI && y.b == x.a;
                let fused = inst(Opcode::LoadMul, y.a, x.a, y.c, x.bx, x.sbx, None);
                let ghost before = insts@;
                lc = try_fuse2(insts, index, next, cond, fused, start, end, Ghost(rs), lc);
                proof {
                    if cond {
                        assert(peephole_step(before, insts@, start as int, end as int));
                        assert(peephole_to(base, insts@, start as int, end as int, n + 1));
                        n = n + 1;
                    }
                    lemma_removed_stays_trans(s0, before, insts@);
                    assert forall|m: int| index < m < next implies #[trigger] insts@[m].removed by {
                        assert(insts@[m] == before[m]);
                    }
                    if has_third {
                        assert forall|m: int| next < m < third implies #[trigger] insts@[m].removed by {
                            assert(insts@[m] == before[m]);
                        }
                    }
                }
            }
            {
                let x = insts[index];
                let y = insts[next];
                let cond = !y.removed && x.opcode == Opcode::LoadI && y.opcode == Opcode::Inc && y.a == x.a;
                let fused = inst(Opcode::LoadInc, x.a, 0, 0, x.bx, x.sbx, None);
                let ghost before = insts@;
                lc = try_fuse2(insts, index, next, cond, fused, start, end, Ghost(rs), lc);
                proof {
                    if cond {
                        assert(peephole_step(before, insts@, start as int, end as int));
                        assert(peephole_to(base, insts@, start as int, end as int, n + 1));
                        n = n + 1;
                    }
                    lemma_removed_stays_trans(s0, before, insts@);
                    assert forall|m: int| index < m < next implies #[trigger] insts@[m].removed by {
                        assert(insts@[m] == before[m]);
                    }
                    if has_third {
                        assert forall|m: int| next < m < third implies #[trigger] insts@[m].removed by {
                            assert(insts@[m] == before[m]);
                        }
                    }
                }
            }
            {
                let x = insts[index];
                let y = insts[next];
                let cond = !y.removed && x.opcode == Opcode::LoadI && y.opcode == Opcode::Dec && y.a == x.a;
                let fused = inst(Opcode::LoadDec, x.a, 0, 0, x.bx, x.sbx, None);
                let ghost before = insts@;
                lc = try_fuse2(insts, index, next, cond, fused, start, end, Ghost(rs), lc);
                proof {
                    if cond {
                        assert(peephole_step(before, insts@, start as int, end as int));
                        assert(peephole_to(base, insts@, start as int, end as int, n + 1));
                        n = n + 1;
                    }
                    lemma_removed_stays_trans(s0, before, insts@);
                    assert forall|m: int| index < m < next implies #[trigger] insts@[m].removed by {
                        assert(insts@[m] == before[m]);
                    }
                    if has_third {
                        assert forall|m: int| next < m < third implies #[trigger] insts@[m].removed by {
                            assert(insts@[m] == before[m]);
                        }
                    }
                }
            }
            {
                let x = insts[index];
                let y = insts[next];
                let cond = !y.removed && x.opcode == Opcode::LoadI && y.opcode == Opcode::Eq && y.b == x.a;
                let fused = inst(Opcode::LoadCmpEq, y.a, x.a, y.c, x.bx, x.sbx, None);
                let ghost before = insts@;
                lc = try_fuse2(insts, index, next, cond, fused, start, end, Ghost(rs), lc);
                proof {
                    if cond {
                        assert(peephole_step(before, insts@, start as int, end as int));
                        assert(peephole_to(base, insts@, start as int, end as int, n + 1));
                        n = n + 1;
                    }
                    lemma_removed_stays_trans(s0, before, insts@);
                    assert forall|m: int| index < m < next implies #[trigger] insts@[m].removed by {
                        assert(insts@[m] == before[m]);
                    }
                    if has_third {
                        assert forall|m: int| next < m < third implies #[trigger] insts@[m].removed by {
                            assert(insts@[m] == before[m]);
                        }
                    }
                }
            }
            {
                let x = insts[index];
                let y = insts[next];
                let cond = !y.removed && x.opcode == Opcode::LoadI && y.opcode == Opcode::Lt && y.b == x.a;
                let fused = inst(Opcode::LoadCmpLt, y.a, x.a, y.c, x.bx, x.sbx, None);
                let ghost before = insts@;
                lc = try_fuse2(insts, index, next, cond, fused, start, end, Ghost(rs), lc);
                proof {
                    if cond {
                        assert(peephole_step(before, insts@, start as int, end as int));
                        assert(peephole_to(base, insts@, start as int, end as int, n + 1));
                        n = n + 1;
                    }
                    lemma_removed_stays_trans(s0, before, insts@);
                    assert forall|m: int| index < m < next implies #[trigger] insts@[m].removed by {
                        assert(insts@[m] == before[m]);
                    }
                    if has_third {
                        assert forall|m: int| next < m < third implies #[trigger] insts@[m].removed by {
                            assert(insts@[m] == before[m]);
                        }
                    }
                }
            }
            {
                let x = insts[index];
                let y = insts[next];
                let cond = !y.removed && x.opcode == Opcode::LoadI && y.opcode == Opcode::JmpFalse && y.a == x.a;
                let fused = inst(Opcode::LoadJfalse, x.a, 0, 0, x.bx, x.sbx, y.target);
                let ghost before = insts@;
                lc = try_fuse2(insts, index, next, cond, fused, start, end, Ghost(rs), lc);
                proof {
                    if cond {
                        assert(peephole_step(before, insts@, start as int, end as int));
                        assert(peephole_to(base, insts@, start as int, end as int, n + 1));
                        n = n + 1;
                    }
                    lemma_removed_stays_trans(s0, before, insts@);
                    assert forall|m: int| index < m < next implies #[trigger] insts@[m].removed by {
                        assert(insts@[m] == before[m]);
                    }
                    if has_third {
                        assert forall|m: int| next < m < third implies #[trigger] insts@[m].removed by {
                            assert(insts@[m] == before[m]);
                        }
                    }
                }
            }
    proof {
        assert(peephole_to(base, insts@, start as int, end as int, n));
    }
    lc
}

/// Fusions of property reads with their consumers.
fn fuse_pairs_props(
    insts: &mut Vec<Instruction>,
    index: usize,
    next: usize,
    third: usize,
    has_third: bool,
    start: usize,
    end: usize,
    Ghost(rs): Ghost<Seq<Instruction>>,
    lc: bool,
    Ghost(base): Ghost<Seq<Instruction>>,
    Ghost(steps): Ghost<nat>,
) -> (r: bool)
    requires
        step_ready(old(insts)@, rs, start as int, end as int, index as int, lc),
        start <= index < next < end,
        has_third ==> next < third < end,
        !lc ==> !rs[next as int].removed,
        peephole_to(base, old(insts)@, start as int, end as int, steps),
        forall|m: int| index < m < next ==> #[trigger] old(insts)@[m].removed,
        has_third ==> forall|m: int| next < m < third ==> #[trigger] old(insts)@[m].removed,
    ensures
        step_ready(final(insts)@, rs, start as int, end as int, index as int, r),
        !r ==> final(insts)@ == old(insts)@ && !lc && !prop_pair_rule(
            old(insts)@[index as int],
            old(insts)@[next as int],
        ) && (has_third ==> !prop_triple_rule(
            old(insts)@[index as int],
            old(insts)@[next as int],
            old(insts)@[third as int],
        )),
        exists|n: nat| #[trigger] peephole_to(base, final(insts)@, start as int, end as int, n),
        removed_stays(old(insts)@, final(insts)@),
        forall|m: int|
            0 <= m < old(insts)@.len() && m != index && m != next && m != third ==> #[trigger] final(insts)@[m]
                == old(insts)@[m],
{
    let mut lc = lc;
    let ghost mut n: nat = steps;
    let ghost s0 = insts@;
            if has_third {
                let x = insts[index];
                let y = insts[next];
                let z = insts[third];
                let cond = !y.removed && !z.removed && x.opcode == Opcode::LoadK && y.opcode == Opcode::GetProp && z.opcode == Opcode::Eq && y.b == x.a && z.b == y.a;
                let fused = inst(Opcode::LoadGetPropCmpEq, z.a, x.a, z.c, x.bx, x.sbx, None);
                let ghost before = insts@;
                lc = try_fuse3(insts, index, next, third, cond, fused, start, end, Ghost(rs), lc);
                proof {
                    if cond {
                        assert(peephole_step(before, insts@, start as int, end as int));
                        assert(peephole_to(base, insts@, start as int, end as int, n + 1));
                        n = n + 1;
                    }
                    lemma_removed_stays_trans(s0, before, insts@);
                    assert forall|m: int| index < m < next implies #[trigger] insts@[m].removed by {
                        assert(insts@[m] == before[m]);
                    }
                    if has_third {
                        assert forall|m: int| next < m < third implies #[trigger] insts@[m].removed by {
                            assert(insts@[m] == before[m]);
                        }
                    }
                }
            }
            {
                let x = insts[index];
                let y = insts[next];
                let cond = !y.removed && x.opcode == Opcode::LoadK && y.opcode == Opcode::GetProp && y.b == x.a;
                let fused = inst(Opcode::LoadGetProp, y.a, x.a, y.c, x.bx, x.sbx, None);
                let ghost before = insts@;
                lc = try_fuse2(insts, index, next, cond, fused, start, end, Ghost(rs), lc);
                proof {
                    if cond {
                        assert(peephole_step(before, insts@, start as int, end as int));
                        assert(peephole_to(base, insts@, start as int, end as int, n + 1));
                        n = n + 1;
                    }
                    lemma_removed_stays_trans(s0, before, insts@);
                    assert forall|m: int| index < m < next implies #[trigger] insts@[m].removed by {
                        assert(insts@[m] == before[m]);
                    }
                    if has_third {
                        assert forall|m: int| next < m < third implies #[trigger] insts@[m].removed by {
                            assert(insts@[m] == before[m]);
                        }
                    }
                }
            }
            if has_third {
                let x = insts[index];
                let y = insts[next];
                let z = insts[third];
                let cond = !y.removed && !z.removed && x.opcode == Opcode::GetProp && y.opcode == Opcode::GetProp && z.opcode == Opcode::GetProp && y.b == x.a && z.b == y.a;
                let fused = inst(Opcode::GetProp3Ic, z.a, x.b, x.c, 0, 0, None);
                let ghost before = insts@;
                lc = try_fuse3(insts, index, next, third, cond, fused, start, end, Ghost(rs), lc);
                proof {
                    if cond {
                        assert(peephole_step(before, insts@, start as int, end as int));
                        assert(peephole_to(base, insts@, start as int, end as int, n + 1));
                        n = n + 1;
                    }
                    lemma_removed_stays_trans(s0, before, insts@);
                    assert forall|m: int| index < m < next implies #[trigger] insts@[m].removed by {
                        assert(insts@[m] == before[m]);
                    }
                    if has_third {
                        assert forall|m: int| next < m < third implies #[trigger] insts@[m].removed by {
                            assert(insts@[m] == before[m]);
                        }
                    }
                }
            }
            if has_third {
                let x = insts[index];
                let y = insts[next];
                let z = insts[third];
                let cond = !y.removed && !z.removed && x.opcode == Opcode::GetProp && y.opcode == Opcode::GetProp && z.opcode == Opcode::Call && y.b == x.a && z.a == y.a && z.b == 0;
                let fused = inst(Opcode::CallMethod2Ic, x.b, x.c, y.c, 0, 0, None);
                let ghost before = insts@;
                lc = try_fuse3(insts, index, next, third, cond, fused, start, end, Ghost(rs), lc);
                proof {
                    if cond {
                        assert(peephole_step(before, insts@, start as int, end as int));
                        assert(peephole_to(base, insts@, start as int, end as int, n + 1));
                        n = n + 1;
                    }
                    lemma_removed_stays_trans(s0, before, insts@);
                    assert forall|m: int| index < m < next implies #[trigger] insts@[m].removed by {
                        assert(insts@[m] == before[m]);
                    }
                    if has_third {
                        assert forall|m: int| next < m < third implies #[trigger] insts@[m].removed by {
                            assert(insts@[m] == before[m]);
                        }
                    }
                }
            }
            {
                let x = insts[index];
                let y = insts[next];
                let cond = !y.removed && x.opcode == Opcode::GetProp && y.opcode == Opcode::GetProp && y.b == x.a;
                let fused = inst(Opcode::GetProp2Ic, y.a, x.b, x.c, 0, 0, None);
                let ghost before = insts@;
                lc = try_fuse2(insts, index, next, cond, fused, start, end, Ghost(rs), lc);
                proof {
                    if cond {
                        assert(peephole_step(before, insts@, start as int, end as int));
                        assert(peephole_to(base, insts@, start as int, end as int, n + 1));
                        n = n + 1;
                    }
                    lemma_removed_stays_trans(s0, before, insts@);
                    assert forall|m: int| index < m < next implies #[trigger] insts@[m].removed by {
                        assert(insts@[m] == before[m]);
                    }
                    if has_third {
                        assert forall|m: int| next < m < third implies #[trigger] insts@[m].removed by {
                            assert(insts@[m] == before[m]);
                        }
                    }
                }
            }
            {
                let x = insts[index];
                let y = insts[next];
                let cond = !y.removed && x.opcode == Opcode::LoadK && y.opcode == Opcode::GetIdxFast && y.b == x.a;
                let fused = inst(Opcode::GetElem, y.a, x.a, y.c, x.bx, x.sbx, None);
                let ghost before = insts@;
                lc = try_fuse2(insts, index, next, cond, fused, start, end, Ghost(rs), lc);
                proof {
                    if cond {
                        assert(peephole_step(before, insts@, start as int, end as int));
                        assert(peephole_to(base, insts@, start as int, end as int, n + 1));
                        n = n + 1;
                    }
                    lemma_removed_stays_trans(s0, before, insts@);
                    assert forall|m: int| index < m < next implies #[trigger] insts@[m].removed by {
                        assert(insts@[m] == before[m]);
                    }
                    if has_third {
                        assert forall|m: int| next < m < third implies #[trigger] insts@[m].removed by {
                            assert(insts@[m] == before[m]);
                        }
                    }
                }
            }
            {
                let x = insts[index];
                let y = insts[next];
                let cond = !y.removed && x.opcode == Opcode::LoadK && y.opcode == Opcode::SetIdxFast && y.b == x.a;
                let fused = inst(Opcode::SetElem, y.a, x.a, y.c, x.bx, x.sbx, None);
                let ghost before = insts@;
                lc = try_fuse2(insts, index, next, cond, fused, start, end, Ghost(rs), lc);
                proof {
                    if cond {
                        assert(peephole_step(before, insts@, start as int, end as int));
                        assert(peephole_to(base, insts@, start as int, end as int, n + 1));
                        n = n + 1;
                    }
                    lemma_removed_stays_trans(s0, before, insts@);
                    assert forall|m: int| index < m < next implies #[trigger] insts@[m].removed by {
                        assert(insts@[m] == before[m]);
                    }
                    if has_third {
                        assert forall|m: int| next < m < third implies #[trigger] insts@[m].removed by {
                            assert(insts@[m] == before[m]);
                        }
                    }
                }
            }
            {
                let x = insts[index];
                let y = insts[next];
                let cond = !y.removed && x.opcode == Opcode::GetProp && y.opcode == Opcode::GetIdxFast && y.b == x.a;
                let fused = inst(Opcode::GetPropElem, y.a, x.b, x.c, 0, 0, None);
                let ghost before = insts@;
                lc = try_fuse2(insts, index, next, cond, fused, start, end, Ghost(rs), lc);
                proof {
                    if cond {
                        assert(peephole_step(before, insts@, start as int, end as int));
                        assert(peephole_to(base, insts@, start as int, end as int, n + 1));
                        n = n + 1;
                    }
                    lemma_removed_stays_trans(s0, before, insts@);
                    assert forall|m: int| index < m < next implies #[trigger] insts@[m].removed by {
                        assert(insts@[m] == before[m]);
                    }
                    if has_third {
                        assert forall|m: int| next < m < third implies #[trigger] insts@[m].removed by {
                            assert(insts@[m] == before[m]);
                        }
                    }
                }
            }
            {
                let x = insts[index];
                let y = insts[next];
                let cond = !y.removed && x.opcode == Opcode::GetProp && y.opcode == Opcode::Call && y.a == x.a && y.b == 0;
                let fused = inst(Opcode::CallMethodIc, x.b, x.c, 0, 0, 0, None);
                let ghost before = insts@;
                lc = try_fuse2(insts, index, next, cond, fused, start, end, Ghost(rs), lc);
                proof {
                    if cond {
                        assert(peephole_step(before, insts@, start as int, end as int));
                        assert(peephole_to(base, insts@, start as int, end as int, n + 1));
                        n = n + 1;
                    }
                    lemma_removed_stays_trans(s0, before, insts@);
                    assert forall|m: int| index < m < next implies #[trigger] insts@[m].removed by {
                        assert(insts@[m] == before[m]);
                    }
                    if has_third {
                        assert forall|m: int| next < m < third implies #[trigger] insts@[m].removed by {
                            assert(insts@[m] == before[m]);
                        }
                    }
                }
            }
    proof {
        assert(peephole_to(base, insts@, start as int, end as int, n));
    }
    lc
}

/// Fusions ending in jumps, additions and calls.
fn fuse_pairs_jumps(
    insts: &mut Vec<Instruction>,
    index: usize,
    next: usize,
    third: usize,
    has_third: bool,
    start: usize,
    end: usize,
    Ghost(rs): Ghost<Seq<Instruction>>,
    lc: bool,
    Ghost(base): Ghost<Seq<Instruction>>,
    Ghost(steps): Ghost<nat>,
) -> (r: bool)
    requires
        step_ready(old(insts)@, rs, start as int, end as int, index as int, lc),
        start <= index < next < end,
        has_third ==> next < third < end,
        !lc ==> !rs[next as int].removed,
        peephole_to(base, old(insts)@, start as int, end as int, steps),
        forall|m: int| index < m < next ==> #[trigger] old(insts)@[m].removed,
        has_third ==> forall|m: int| next < m < third ==> #[trigger] old(insts)@[m].removed,
    ensures
        step_ready(final(insts)@, rs, start as int, end as int, index as int, r),
        !r ==> final(insts)@ == old(insts)@ && !lc && !jump_pair_rule(
            old(insts)@[index as int],
            old(insts)@[next as int],
        ),
        exists|n: nat| #[trigger] peephole_to(base, final(insts)@, start as int, end as int, n),
        removed_stays(old(insts)@, final(insts)@),
        forall|m: int|
            0 <= m < old(insts)@.len() && m != index && m != next && m != third ==> #[trigger] final(insts)@[m]
                == old(insts)@[m],
{
    let mut lc = lc;
    let ghost mut n: nat = steps;
    let ghost s0 = insts@;
            {
                let x = insts[index];
                let y = insts[next];
                let cond = !y.removed && x.opcode == Opcode::GetProp && y.opcode == Opcode::Call && y.a == x.a && y.b == 1;
                let fused = inst(Opcode::CallMethod1, x.b, 0, 0, x.c as u16, x.c as i16, None);
                let ghost before = insts@;
                lc = try_fuse2(insts, index, next, cond, fused, start, end, Ghost(rs), lc);
                proof {
                    if cond {
                        assert(peephole_step(before, insts@, start as int, end as int));
                        assert(peephole_to(base, insts@, start as int, end as int, n + 1));
                        n = n + 1;
                    }
                    lemma_removed_stays_trans(s0, before, insts@);
                    assert forall|m: int| index < m < next implies #[trigger] insts@[m].removed by {
                        assert(insts@[m] == before[m]);
                    }
                    if has_third {
                        assert forall|m: int| next < m < third implies #[trigger] insts@[m].removed by {
                            assert(insts@[m] == before[m]);
                        }
                    }
                }
            }
            {
                let x = insts[index];
                let y = insts[next];
                let cond = !y.removed && x.opcode == Opcode::GetProp && y.opcode == Opcode::Call && y.a == x.a && y.b == 2;
                let fused = inst(Opcode::CallMethod2, x.b, 0, 0, x.c as u16, x.c as i16, None);
                let ghost before = insts@;
                lc = try_fuse2(insts, index, next, cond, fused, start, end, Ghost(rs), lc);
                proof {
                    if cond {
                        assert(peephole_step(before, insts@, start as int, end as int));
                        assert(peephole_to(base, insts@, start as int, end as int, n + 1));
                        n = n + 1;
                    }
                    lemma_removed_stays_trans(s0, before, insts@);
                    assert forall|m: int| index < m < next implies #[trigger] insts@[m].removed by {
                        assert(insts@[m] == before[m]);
                    }
                    if has_third {
                        assert forall|m: int| next < m < third implies #[trigger] insts@[m].removed by {
                            assert(insts@[m] == before[m]);
                        }
                    }
                }
            }
            {
                let x = insts[index];
                let y = insts[next];
                let cond = !y.removed && x.opcode == Opcode::GetPropIc && y.opcode == Opcode::Call && y.a == x.a && y.b == 0;
                let fused = inst(Opcode::GetPropIcCall, x.a, x.b, x.c, 0, 0, None);
                let ghost before = insts@;
                lc = try_fuse2(insts, index, next, cond, fused, start, end, Ghost(rs), lc);
                proof {
                    if cond {
                        assert(peephole_step(before, insts@, start as int, end as int));
                        assert(peephole_to(base, insts@, start as int, end as int, n + 1));
                        n = n + 1;
                    }
                    lemma_removed_stays_trans(s0, before, insts@);
                    assert forall|m: int| index < m < next implies #[trigger] insts@[m].removed by {
                        assert(insts@[m] == before[m]);
                    }
                    if has_third {
                        assert forall|m: int| next < m < third implies #[trigger] insts@[m].removed by {
                            assert(insts@[m] == before[m]);
                        }
                    }
                }
            }
            {
                let x = insts[index];
                let y = insts[next];
                let cond = !y.removed && x.opcode == Opcode::IncAcc && y.opcode == Opcode::JmpFalse && y.a == ACC;
                let fused = inst(Opcode::IncJmpFalseLoop, ACC, 0, 0, 0, 0, y.target);
                let ghost before = insts@;
                lc = try_fuse2(insts, index, next, cond, fused, start, end, Ghost(rs), lc);
                proof {
                    if cond {
                        assert(peephole_step(before, insts@, start as int, end as int));
                        assert(peephole_to(base, insts@, start as int, end as int, n + 1));
                        n = n + 1;
                    }
                    lemma_removed_stays_trans(s0, before, insts@);
                    assert forall|m: int| index < m < next implies #[trigger] insts@[m].removed by {
                        assert(insts@[m] == before[m]);
                    }
                    if has_third {
                        assert forall|m: int| next < m < third implies #[trigger] insts@[m].removed by {
                            assert(insts@[m] == before[m]);
                        }
                    }
                }
            }
            {
                let x = insts[index];
                let y = insts[next];
                let cond = !y.removed && x.opcode == Opcode::LoadK && y.opcode == Opcode::Add && y.b == x.a;
                let fused = inst(Opcode::LoadKAdd, y.a, x.a, y.c, x.bx, x.sbx, None);
                let ghost before = insts@;
                lc = try_fuse2(insts, index, next, cond, fused, start, end, Ghost(rs), lc);
                proof {
                    if cond {
                        assert(peephole_step(before, insts@, start as int, end as int));
                        assert(peephole_to(base, insts@, start as int, end as int, n + 1));
                        n = n + 1;
                    }
                    lemma_removed_stays_trans(s0, before, insts@);
                    assert forall|m: int| index < m < next implies #[trigger] insts@[m].removed by {
                        assert(insts@[m] == before[m]);
                    }
                    if has_third {
                        assert forall|m: int| next < m < third implies #[trigger] insts@[m].removed by {
                            assert(insts@[m] == before[m]);
                        }
                    }
                }
            }
            {
                let x = insts[index];
                let y = insts[next];
                let cond = !y.removed && x.opcode == Opcode::LoadK && y.opcode == Opcode::Eq && y.b == x.a;
                let fused = inst(Opcode::LoadKCmp, y.a, x.a, y.c, x.bx, x.sbx, None);
                let ghost before = insts@;
                lc = try_fuse2(insts, index, next, cond, fused, start, end, Ghost(rs), lc);
                proof {
                    if cond {
                        assert(peephole_step(before, insts@, start as int, end as int));
                        assert(peephole_to(base, insts@, start as int, end as int, n + 1));
                        n = n + 1;
                    }
                    lemma_removed_stays_trans(s0, before, insts@);
                    assert forall|m: int| index < m < next implies #[trigger] insts@[m].removed by {
                        assert(insts@[m] == before[m]);
                    }
                    if has_third {
                        assert forall|m: int| next < m < third implies #[trigger] insts@[m].removed by {
                            assert(insts@[m] == before[m]);
                        }
                    }
                }
            }
            {
                let x = insts[index];
                let y = insts[next];
                let cond = !y.removed && x.opcode == Opcode::Eq && y.opcode == Opcode::JmpFalse && y.a == x.a;
                let fused = inst(Opcode::CmpJmp, x.a, x.b, x.c, 0, 0, y.target);
                let ghost before = insts@;
                lc = try_fuse2(insts, index, next, cond, fused, start, end, Ghost(rs), lc);
                proof {
                    if cond {
                        assert(peephole_step(before, insts@, start as int, end as int));
                        assert(peephole_to(base, insts@, start as int, end as int, n + 1));
                        n = n + 1;
                    }
                    lemma_removed_stays_trans(s0, before, insts@);
                    assert forall|m: int| index < m < next implies #[trigger] insts@[m].removed by {
                        assert(insts@[m] == before[m]);
                    }
                    if has_third {
                        assert forall|m: int| next < m < third implies #[trigger] insts@[m].removed by {
                            assert(insts@[m] == before[m]);
                        }
                    }
                }
            }
            {
                let x = insts[index];
                let y = insts[next];
                let cond = !y.removed && x.opcode == Opcode::LoadCmpEq && y.opcode == Opcode::JmpFalse && y.a == x.a;
                let fused = inst(Opcode::LoadCmpEqJfalse, x.a, x.b, x.c, x.bx, x.sbx, y.target);
                let ghost before = insts@;
                lc = try_fuse2(insts, index, next, cond, fused, start, end, Ghost(rs), lc);
                proof {
                    if cond {
                        assert(peephole_step(before, insts@, start as int, end as int));
                        assert(peephole_to(base, insts@, start as int, end as int, n + 1));
                        n = n + 1;
                    }
                    lemma_removed_stays_trans(s0, before, insts@);
                    assert forall|m: int| index < m < next implies #[trigger] insts@[m].removed by {
                        assert(insts@[m] == before[m]);
                    }
                    if has_third {
                        assert forall|m: int| next < m < third implies #[trigger] insts@[m].removed by {
                            assert(insts@[m] == before[m]);
                        }
                    }
                }
            }
            {
                let x = insts[index];
                let y = insts[next];
                let cond = !y.removed && x.opcode == Opcode::LoadCmpLt && y.opcode == Opcode::JmpFalse && y.a == x.a;
                let fused = inst(Opcode::LoadCmpLtJfalse, x.a, x.b, x.c, x.bx, x.sbx, y.target);
                let ghost before = insts@;
                lc = try_fuse2(insts, index, next, cond, fused, start, end, Ghost(rs), lc);
                proof {
                    if cond {
                        assert(peephole_step(before, insts@, start as int, end as int));
                        assert(peephole_to(base, insts@, start as int, end as int, n + 1));
                        n = n + 1;
                    }
                    lemma_removed_stays_trans(s0, before, insts@);
                    assert forall|m: int| index < m < next implies #[trigger] insts@[m].removed by {
                        assert(insts@[m] == before[m]);
                    }
                    if has_third {
                        assert forall|m: int| next < m < third implies #[trigger] insts@[m].removed by {
                            assert(insts@[m] == before[m]);
                        }
                    }
                }
            }
            {
                let x = insts[index];
                let y = insts[next];
                let cond = !y.removed && x.opcode == Opcode::LoadAcc && y.opcode == Opcode::Add && y.b == ACC;
                let fused = inst(Opcode::AddAccReg, y.a, x.a, y.c, 0, 0, None);
                let ghost before = insts@;
                lc = try_fuse2(insts, index, next, cond, fused, start, end, Ghost(rs), lc);
                proof {
                    if cond {
                        assert(peephole_step(before, insts@, start as int, end as int));
                        assert(peephole_to(base, insts@, start as int, end as int, n + 1));
                        n = n + 1;
                    }
                    lemma_removed_stays_trans(s0, before, insts@);
                    assert forall|m: int| index < m < next implies #[trigger] insts@[m].removed by {
                        assert(insts@[m] == before[m]);
                    }
                    if has_third {
                        assert forall|m: int| next < m < third implies #[trigger] insts@[m].removed by {
                            assert(insts@[m] == before[m]);
                        }
                    }
                }
            }
            {
                let x = insts[index];
                let y = insts[next];
                let cond = !y.removed && x.opcode == Opcode::Call && y.opcode == Opcode::Add && y.b == ACC;
                let fused = inst(Opcode::Call1Add, y.a, x.a, y.c, 0, 0, None);
                let ghost before = insts@;
                lc = try_fuse2(insts, index, next, cond, fused, start, end, Ghost(rs), lc);
                proof {
                    if cond {
                        assert(peephole_step(before, insts@, start as int, end as int));
                        assert(peephole_to(base, insts@, start as int, end as int, n + 1));
                        n = n + 1;
                    }
                    lemma_removed_stays_trans(s0, before, insts@);
                    assert forall|m: int| index < m < next implies #[trigger] insts@[m].removed by {
                        assert(insts@[m] == before[m]);
                    }
                    if has_third {
                        assert forall|m: int| next < m < third implies #[trigger] insts@[m].removed by {
                            assert(insts@[m] == before[m]);
                        }
                    }
                }
            }
    proof {
        assert(peephole_to(base, insts@, start as int, end as int, n));
    }
    lc
}

/// Fusions of three kept instructions ending in a jump or an addition.
fn fuse_triples(
    insts: &mut Vec<Instruction>,
    index: usize,
    next: usize,
    third: usize,
    start: usize,
    end: usize,
    Ghost(rs): Ghost<Seq<Instruction>>,
    lc: bool,
    Ghost(base): Ghost<Seq<Instruction>>,
    Ghost(steps): Ghost<nat>,
) -> (r: bool)
    requires
        step_ready(old(insts)@, rs, start as int, end as int, index as int, lc),
        start <= index < next < third < end,
        !lc ==> !rs[next as int].removed,
        !old(insts)@[next as int].removed,
        !old(insts)@[third as int].removed,
        peephole_to(base, old(insts)@, start as int, end as int, steps),
        forall|m: int| index < m < next ==> #[trigger] old(insts)@[m].removed,
        true ==> forall|m: int| next < m < third ==> #[trigger] old(insts)@[m].removed,
    ensures
        step_ready(final(insts)@, rs, start as int, end as int, index as int, r),
        !r ==> final(insts)@ == old(insts)@ && !lc && !branch_triple_rule(
            old(insts)@[index as int],
            old(insts)@[next as int],
            old(insts)@[third as int],
        ),
        exists|n: nat| #[trigger] peephole_to(base, final(insts)@, start as int, end as int, n),
        removed_stays(old(insts)@, final(insts)@),
        forall|m: int|
            0 <= m < old(insts)@.len() && m != index && m != next && m != third ==> #[trigger] final(insts)@[m]
                == old(insts)@[m],
{
    let mut lc = lc;
    let ghost mut n: nat = steps;
    let ghost s0 = insts@;
        {
            let x = insts[index];
            let y = insts[next];
            let z = insts[third];
            let cond = !y.removed && !z.removed && x.opcode == Opcode::LoadI && y.opcode == Opcode::Eq && z.opcode == Opcode::JmpFalse && y.b == x.a && z.a == y.a;
            let fused = inst(Opcode::LoadCmpEqJfalse, y.a, x.a, y.c, x.bx, x.sbx, z.target);
            let ghost before = insts@;
            lc = try_fuse3(insts, index, next, third, cond, fused, start, end, Ghost(rs), lc);
            proof {
                if cond {
                    assert(peephole_step(before, insts@, start as int, end as int));
                    assert(peephole_to(base, insts@, start as int, end as int, n + 1));
                    n = n + 1;
                }
                lemma_removed_stays_trans(s0, before, insts@);
                assert forall|m: int| index < m < next implies #[trigger] insts@[m].removed by {
                    assert(insts@[m] == before[m]);
                }
                if true {
                    assert forall|m: int| next < m < third implies #[trigger] insts@[m].removed by {
                        assert(insts@[m] == before[m]);
                    }
                }
            }
            }
            {
            let x = insts[index];
            let y = insts[next];
            let z = insts[third];
            let cond = !y.removed && !z.removed && x.opcode == Opcode::LoadI && y.opcode == Opcode::Lt && z.opcode == Opcode::JmpFalse && y.b == x.a && z.a == y.a;
            let fused = inst(Opcode::LoadCmpLtJfalse, y.a, x.a, y.c, x.bx, x.sbx, z.target);
            let ghost before = insts@;
            lc = try_fuse3(insts, index, next, third, cond, fused, start, end, Ghost(rs), lc);
            proof {
                if cond {
                    assert(peephole_step(before, insts@, start as int, end as int));
                    assert(peephole_to(base, insts@, start as int, end as int, n + 1));
                    n = n + 1;
                }
                lemma_removed_stays_trans(s0, before, insts@);
                assert forall|m: int| index < m < next implies #[trigger] insts@[m].removed by {
                    assert(insts@[m] == before[m]);
                }
                if true {
                    assert forall|m: int| next < m < third implies #[trigger] insts@[m].removed by {
                        assert(insts@[m] == before[m]);
                    }
                }
            }
            }
            {
            let x = insts[index];
            let y = insts[next];
            let z = insts[third];
            let cond = !y.removed && !z.removed && x.opcode == Opcode::Call && y.opcode == Opcode::Call && z.opcode == Opcode::Add && y.a == x.a && z.b == ACC;
            let fused = inst(Opcode::Call2Add, z.a, x.a, z.c, 0, 0, None);
            let ghost before = insts@;
            lc = try_fuse3(insts, index, next, third, cond, fused, start, end, Ghost(rs), lc);
            proof {
                if cond {
                    assert(peephole_step(before, insts@, start as int, end as int));
                    assert(peephole_to(base, insts@, start as int, end as int, n + 1));
                    n = n + 1;
                }
                lemma_removed_stays_trans(s0, before, insts@);
                assert forall|m: int| index < m < next implies #[trigger] insts@[m].removed by {
                    assert(insts@[m] == before[m]);
                }
                if true {
                    assert forall|m: int| next < m < third implies #[trigger] insts@[m].removed by {
                        assert(insts@[m] == before[m]);
                    }
                }
            }
            }
    proof {
        assert(peephole_to(base, insts@, start as int, end as int, n));
    }
    lc
}

/// Fuses common instruction sequences of a block into superinstructions
/// (loads feeding arithmetic, comparisons and jumps; property reads feeding
/// calls, indexing and further reads; accumulator increments feeding
/// jumps), besides the basic copy rewrites and constant folding, until
/// nothing changes.
pub fn optimize_peephole_block(insts: &mut Vec<Instruction>, start: usize, end: usize) -> (r: bool)
    requires
        start <= end <= old(insts)@.len(),
    ensures
        same_outside(old(insts)@, final(insts)@, start as int, end as int),
        peephole_normal(final(insts)@, start as int, end as int),
        !r ==> final(insts)@ == old(insts)@,
        exists|n: nat| peephole_to(old(insts)@, final(insts)@, start as int, end as int, n),
{
    let mut changed = false;
    let ghost orig = insts@;
    let ghost mut steps: nat = 0;
    loop
        invariant
            start <= end <= insts@.len(),
            orig == old(insts)@,
            same_outside(old(insts)@, insts@, start as int, end as int),
            !changed ==> insts@ == old(insts)@,
            peephole_to(orig, insts@, start as int, end as int, steps),
        ensures
            same_outside(old(insts)@, insts@, start as int, end as int),
            peephole_normal(insts@, start as int, end as int),
            !changed ==> insts@ == old(insts)@,
            peephole_to(orig, insts@, start as int, end as int, steps),
        decreases kept_count(insts@, start as int, end as int), churn_count(
            insts@,
            start as int,
            end as int,
        ),
    {
        let ghost rs = insts@;
        let mut lc = false;
        let live = collect_kept(insts, start, end);
        let mut pos: usize = 0;
        while pos < live.len()
            invariant
                start <= end <= insts@.len(),
                insts@.len() == rs.len(),
                kept_positions(rs, live@, start as int, end as int),
                lists_all_kept(rs, live@, start as int, end as int),
                same_outside(rs, insts@, start as int, end as int),
                progress(insts@, rs, start as int, end as int, lc),
                pos <= live@.len(),
                !lc ==> forall|k: int| 0 <= k < pos ==> #[trigger] quiet_at(rs, live@, k),
                removed_stays(rs, insts@),
                peephole_to(orig, insts@, start as int, end as int, steps),
            decreases live@.len() - pos,
        {
            let index = live[pos];
            pos = pos + 1;
            if insts[index].removed {
                continue;
            }
            let cur = insts[index];
            if cur.opcode == Opcode::Mov && cur.a == cur.b {
                let ghost before = insts@;
                lc = try_remove(insts, index, true, start, end, index, Ghost(rs), lc);
                proof {
                    assert(kept_at(before, start as int, end as int, index as int));
                    assert(basic_step(before, insts@, start as int, end as int));
                    assert(peephole_step(before, insts@, start as int, end as int));
                    assert(peephole_to(orig, insts@, start as int, end as int, steps + 1));
                    steps = steps + 1;
                }
                continue;
            }
            let has_next = pos < live.len();
            let has_third = has_next && live.len() - pos > 1;
            if !has_next {
                continue;
            }
            let next = live[pos];
            let third = if has_third {
                live[pos + 1]
            } else {
                next
            };
            if insts[next].removed {
                continue;
            }
            assert(index < next);
            assert(has_third ==> next < third);
            proof {
                lemma_live_next(rs, live@, start as int, end as int, pos - 1);
                assert forall|m: int| index < m < next implies #[trigger] insts@[m].removed by {
                    assert(rs[m].removed);
                }
                if has_third {
                    lemma_live_next(rs, live@, start as int, end as int, pos as int);
                    assert forall|m: int| next < m < third implies #[trigger] insts@[m].removed by {
                        assert(rs[m].removed);
                    }
                }
                assert(kept_pair(insts@, start as int, end as int, index as int, next as int));
            }
            let n0 = insts[next];
            let swap = cur.opcode == Opcode::Mov && n0.opcode == Opcode::Mov && n0.a == cur.b && n0.b
                == cur.a;
            let ghost before1 = insts@;
            lc = try_remove(insts, next, swap, start, end, index, Ghost(rs), lc);
            proof {
                if swap {
                    assert(basic_step(before1, insts@, start as int, end as int));
                    assert(peephole_step(before1, insts@, start as int, end as int));
                    assert(peephole_to(orig, insts@, start as int, end as int, steps + 1));
                    steps = steps + 1;
                }
            }
            let n1 = insts[next];
            if n1.opcode == Opcode::Mov && n1.a == n1.b {
                let ghost before2 = insts@;
                lc = try_remove(insts, next, true, start, end, index, Ghost(rs), lc);
                proof {
                    assert(!swap);
                    assert(kept_at(before2, start as int, end as int, next as int));
                    assert(basic_step(before2, insts@, start as int, end as int));
                    assert(peephole_step(before2, insts@, start as int, end as int));
                    assert(peephole_to(orig, insts@, start as int, end as int, steps + 1));
                    steps = steps + 1;
                }
                continue;
            }
            let ghost before3 = insts@;
            lc = try_load_move(insts, index, next, start, end, Ghost(rs), lc);
            proof {
                if load_then_move(before3[index as int], before3[next as int]) {
                    assert(!swap);
                    assert(kept_pair(before3, start as int, end as int, index as int, next as int));
                    assert(basic_step(before3, insts@, start as int, end as int));
                    assert(peephole_step(before3, insts@, start as int, end as int));
                    assert(peephole_to(orig, insts@, start as int, end as int, steps + 1));
                    steps = steps + 1;
                }
                assert forall|m: int| index < m < next implies #[trigger] insts@[m].removed by {
                    assert(insts@[m] == before3[m]);
                }
                if has_third {
                    assert forall|m: int| next < m < third implies #[trigger] insts@[m].removed by {
                        assert(insts@[m] == before3[m]);
                    }
                }
            }
            lc = fuse_pairs_loads(insts, index, next, third, has_third, start, end, Ghost(rs), lc, Ghost(orig), Ghost(steps));
            proof {
                steps = choose|n: nat| #[trigger] peephole_to(orig, insts@, start as int, end as int, n);
            }
            lc = fuse_pairs_props(insts, index, next, third, has_third, start, end, Ghost(rs), lc, Ghost(orig), Ghost(steps));
            proof {
                steps = choose|n: nat| #[trigger] peephole_to(orig, insts@, start as int, end as int, n);
            }
            lc = fuse_pairs_jumps(insts, index, next, third, has_third, start, end, Ghost(rs), lc, Ghost(orig), Ghost(steps));
            proof {
                steps = choose|n: nat| #[trigger] peephole_to(orig, insts@, start as int, end as int, n);
            }
            if has_third {
                if insts[next].removed || insts[third].removed {
                    continue;
                }
                let ghost before4 = insts@;
                lc = try_fold(insts, index, next, third, start, end, Ghost(rs), lc);
                proof {
                    if foldable(before4[index as int], before4[next as int], before4[third as int]) {
                        assert(kept_triple(before4, start as int, end as int, index as int, next as int, third as int));
                        assert(fold_step(before4, insts@, start as int, end as int));
                        assert(peephole_step(before4, insts@, start as int, end as int));
                        assert(peephole_to(orig, insts@, start as int, end as int, steps + 1));
                        steps = steps + 1;
                    }
                    assert forall|m: int| index < m < next implies #[trigger] insts@[m].removed by {
                        assert(insts@[m] == before4[m]);
                    }
                    assert forall|m: int| next < m < third implies #[trigger] insts@[m].removed by {
                        assert(insts@[m] == before4[m]);
                    }
                }
                lc = fuse_triples(insts, index, next, third, start, end, Ghost(rs), lc, Ghost(orig), Ghost(steps));
                proof {
                    steps = choose|n: nat| #[trigger] peephole_to(orig, insts@, start as int, end as int, n);
                }
            }
        }
        if !lc {
            proof {
                assert forall|p: int| #[trigger] kept_at(insts@, start as int, end as int, p) implies !self_move(
                    insts@[p],
                ) by {
                    let k = lemma_at_in_live(rs, live@, start as int, end as int, p);
                    assert(quiet_at(rs, live@, k));
                }
                assert forall|p: int, q: int| #[trigger]
                    kept_pair(insts@, start as int, end as int, p, q) implies !undoing_moves(
                    insts@[p],
                    insts@[q],
                ) && !load_then_move(insts@[p], insts@[q]) && !fusable_pair(insts@[p], insts@[q]) by {
                    let k = lemma_pair_in_live(rs, live@, start as int, end as int, p, q);
                    assert(quiet_at(rs, live@, k));
                }
                assert forall|p: int, q: int, t: int| #[trigger]
                    kept_triple(insts@, start as int, end as int, p, q, t) implies !fusable_triple(
                    insts@[p],
                    insts@[q],
                    insts@[t],
                ) by {
                    let k = lemma_triple_in_live(rs, live@, start as int, end as int, p, q, t);
                    assert(quiet_at(rs, live@, k));
                }
            }
            break;
        }
        changed = true;
    }
    changed
}

} // verus!
