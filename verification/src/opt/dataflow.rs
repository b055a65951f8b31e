//! Backward liveness as a fixed point. Rows of live registers start empty
//! and are recomputed from the last instruction to the first until a sweep
//! changes nothing. Every recomputed row contains the previous one, so each
//! changing sweep turns on at least one of the 2·256·n bits, which bounds the
//! number of sweeps.
use vstd::prelude::*;

use crate::opt::blocks::count_true;
use crate::opt::inst::REG_COUNT;
use crate::opt::liveness::{union_live_sets, InstructionSemantics};

verus! {

/// Register `k` is live on entry to some successor of `q`.
pub open spec fn out_bit(sem: Seq<InstructionSemantics>, live_in: Seq<Vec<bool>>, q: int, k: int) -> bool {
    exists|j: int|
        0 <= j < sem[q].successors@.len() && #[trigger] live_in[sem[q].successors@[j] as int]@[k]
}

/// Register `k` is live on entry to `q`, given the registers live after it:
/// `q` reads it, or it is live after `q` and `q` does not write it.
pub open spec fn in_bit(sem: Seq<InstructionSemantics>, out: Seq<bool>, q: int, k: int) -> bool {
    sem[q].uses@.contains(k as u8) || (out[k] && !sem[q].defs@.contains(k as u8))
}

/// `n` rows of one bit per register.
pub open spec fn rows_ok(rows: Seq<Vec<bool>>, n: int) -> bool {
    &&& rows.len() == n
    &&& forall|q: int| 0 <= q < n ==> (#[trigger] rows[q])@.len() == REG_COUNT
}

/// The successors of every instruction lie inside the program.
pub open spec fn successors_ok(sem: Seq<InstructionSemantics>, n: int) -> bool {
    &&& sem.len() == n
    &&& forall|q: int, j: int|
        0 <= q < n && 0 <= j < sem[q].successors@.len() ==> #[trigger] sem[q].successors@[j] < n
}

/// The rows solve the backward liveness equations.
pub open spec fn is_fixpoint(sem: Seq<InstructionSemantics>, live_in: Seq<Vec<bool>>, live_out: Seq<Vec<bool>>) -> bool {
    &&& forall|q: int, k: int|
        0 <= q < sem.len() && 0 <= k < REG_COUNT ==> #[trigger] live_out[q]@[k] == out_bit(sem, live_in, q, k)
    &&& forall|q: int, k: int|
        0 <= q < sem.len() && 0 <= k < REG_COUNT ==> #[trigger] live_in[q]@[k] == in_bit(sem, live_out[q]@, q, k)
}

/// Every bit on in `a` is on in `b`, over `n` rows.
pub open spec fn rows_within(a: Seq<Vec<bool>>, b: Seq<Vec<bool>>, n: int) -> bool {
    forall|q: int, k: int| 0 <= q < n && 0 <= k < REG_COUNT && #[trigger] a[q]@[k] ==> b[q]@[k]
}

/// The rows lie within every solution of the equations: once they solve
/// them, they are the least solution.
pub open spec fn below_every_fixpoint(sem: Seq<InstructionSemantics>, live_in: Seq<Vec<bool>>, live_out: Seq<Vec<bool>>) -> bool {
    forall|fi: Seq<Vec<bool>>, fo: Seq<Vec<bool>>|
        #[trigger] is_fixpoint(sem, fi, fo) && rows_ok(fi, sem.len() as int) && rows_ok(fo, sem.len() as int)
            ==> rows_within(live_in, fi, sem.len() as int) && rows_within(live_out, fo, sem.len() as int)
}

/// Every bit that is on is justified by the equations.
pub open spec fn below_fixpoint(sem: Seq<InstructionSemantics>, live_in: Seq<Vec<bool>>, live_out: Seq<Vec<bool>>) -> bool {
    &&& forall|q: int, k: int|
        0 <= q < sem.len() && 0 <= k < REG_COUNT && #[trigger] live_out[q]@[k] ==> out_bit(sem, live_in, q, k)
    &&& forall|q: int, k: int|
        0 <= q < sem.len() && 0 <= k < REG_COUNT && #[trigger] live_in[q]@[k] ==> in_bit(sem, live_out[q]@, q, k)
}

/// The equations hold at the instructions from `from` on.
pub open spec fn solved_from(sem: Seq<InstructionSemantics>, live_in: Seq<Vec<bool>>, live_out: Seq<Vec<bool>>, from: int) -> bool {
    &&& forall|q: int, k: int|
        from <= q < sem.len() && 0 <= k < REG_COUNT ==> #[trigger] live_out[q]@[k] == out_bit(sem, live_in, q, k)
    &&& forall|q: int, k: int|
        from <= q < sem.len() && 0 <= k < REG_COUNT ==> #[trigger] live_in[q]@[k] == in_bit(sem, live_out[q]@, q, k)
}

/// Bits on in the first `m` rows.
pub open spec fn total(rows: Seq<Vec<bool>>, m: int) -> int
    decreases m,
{
    if m <= 0 {
        0
    } else {
        total(rows, m - 1) + count_true(rows[m - 1]@, REG_COUNT as int)
    }
}

proof fn lemma_count_le(a: Seq<bool>, b: Seq<bool>, n: int)
    requires
        0 <= n <= a.len(),
        n <= b.len(),
        forall|k: int| 0 <= k < n && #[trigger] a[k] ==> b[k],
    ensures
        count_true(a, n) <= count_true(b, n),
        (exists|k: int| 0 <= k < n && #[trigger] b[k] && !a[k]) ==> count_true(a, n) < count_true(b, n),
    decreases n,
{
    if n > 0 {
        lemma_count_le(a, b, n - 1);
        if exists|k: int| 0 <= k < n && #[trigger] b[k] && !a[k] {
            let k = choose|k: int| 0 <= k < n && #[trigger] b[k] && !a[k];
            if k < n - 1 {
                assert(exists|k2: int| 0 <= k2 < n - 1 && #[trigger] b[k2] && !a[k2]);
            }
        }
    }
}

proof fn lemma_count_max(a: Seq<bool>, n: int)
    requires
        0 <= n <= a.len(),
    ensures
        count_true(a, n) <= n,
    decreases n,
{
    if n > 0 {
        lemma_count_max(a, n - 1);
    }
}

proof fn lemma_total_update(rows: Seq<Vec<bool>>, p: int, row: Vec<bool>, m: int)
    requires
        0 <= p < rows.len(),
        0 <= m <= rows.len(),
    ensures
        total(rows.update(p, row), m) == total(rows, m) + if p < m {
            count_true(row@, REG_COUNT as int) - count_true(rows[p]@, REG_COUNT as int)
        } else {
            0
        },
    decreases m,
{
    if m > 0 {
        lemma_total_update(rows, p, row, m - 1);
    }
}

proof fn lemma_total_max(rows: Seq<Vec<bool>>, m: int)
    requires
        0 <= m <= rows.len(),
        forall|q: int| 0 <= q < rows.len() ==> (#[trigger] rows[q])@.len() == REG_COUNT,
    ensures
        0 <= total(rows, m) <= m * REG_COUNT,
    decreases m,
{
    if m > 0 {
        lemma_total_max(rows, m - 1);
        lemma_count_max(rows[m - 1]@, REG_COUNT as int);
        assert(count_true(rows[m - 1]@, REG_COUNT as int) >= 0);
    }
}

/// Growing a row to a superset does not lower the total, and raises it when
/// the row changes.
proof fn lemma_total_grow(rows: Seq<Vec<bool>>, p: int, row: Vec<bool>)
    requires
        rows_ok(rows, rows.len() as int),
        0 <= p < rows.len(),
        row@.len() == REG_COUNT,
        forall|k: int| 0 <= k < REG_COUNT && #[trigger] rows[p]@[k] ==> row@[k],
        row@ != rows[p]@,
    ensures
        total(rows.update(p, row), rows.len() as int) > total(rows, rows.len() as int),
{
    lemma_total_update(rows, p, row, rows.len() as int);
    let k = choose|k: int| 0 <= k < REG_COUNT && row@[k] != rows[p]@[k];
    if !(exists|k: int| 0 <= k < REG_COUNT && 0 <= k < REG_COUNT && row@[k] != rows[p]@[k]) {
        assert(row@ =~= rows[p]@);
    }
    assert(row@[k] && !rows[p]@[k]);
    lemma_count_le(rows[p]@, row@, REG_COUNT as int);
}

/// The registers live after `pc`: the union of the rows of its successors.
fn compute_out(sem: &Vec<InstructionSemantics>, live_in: &Vec<Vec<bool>>, pc: usize) -> (r: Vec<bool>)
    requires
        pc < sem@.len(),
        successors_ok(sem@, sem@.len() as int),
        rows_ok(live_in@, sem@.len() as int),
    ensures
        r@.len() == REG_COUNT,
        forall|k: int| 0 <= k < REG_COUNT ==> #[trigger] r@[k] == out_bit(sem@, live_in@, pc as int, k),
{
    let info = &sem[pc];
    let mut out: Vec<bool> = Vec::new();
    let mut k: usize = 0;
    while k < REG_COUNT
        invariant
            k <= REG_COUNT,
            out@.len() == k,
            forall|j: int| 0 <= j < k ==> !(#[trigger] out@[j]),
        decreases REG_COUNT - k,
    {
        out.push(false);
        k = k + 1;
    }
    let mut j: usize = 0;
    while j < info.successors.len()
        invariant
            info == sem@[pc as int],
            pc < sem@.len(),
            successors_ok(sem@, sem@.len() as int),
            rows_ok(live_in@, sem@.len() as int),
            j <= info.successors@.len(),
            out@.len() == REG_COUNT,
            forall|b: int|
                0 <= b < REG_COUNT ==> (#[trigger] out@[b] <==> exists|i: int|
                    0 <= i < j && #[trigger] live_in@[info.successors@[i] as int]@[b]),
        decreases info.successors@.len() - j,
    {
        let succ = info.successors[j];
        let ghost before = out@;
        union_live_sets(&mut out, &live_in[succ]);
        proof {
            assert forall|c: int| 0 <= c < REG_COUNT implies (#[trigger] out@[c] <==> exists|i: int|
                0 <= i < j + 1 && #[trigger] live_in@[info.successors@[i] as int]@[c]) by {
                if out@[c] && !before[c] {
                    assert(live_in@[info.successors@[j as int] as int]@[c]);
                }
                if exists|i: int| 0 <= i < j + 1 && #[trigger] live_in@[info.successors@[i] as int]@[c] {
                    let i = choose|i: int| 0 <= i < j + 1 && #[trigger] live_in@[info.successors@[i] as int]@[c];
                    if i < j {
                        assert(before[c]);
                    }
                }
            }
        }
        j = j + 1;
    }
    out
}

/// The registers live before `pc` given those live after it.
fn compute_in(info: &InstructionSemantics, out: &Vec<bool>) -> (r: Vec<bool>)
    requires
        out@.len() == REG_COUNT,
    ensures
        r@.len() == REG_COUNT,
        forall|k: int|
            0 <= k < REG_COUNT ==> #[trigger] r@[k] == (info.uses@.contains(k as u8) || (out@[k]
                && !info.defs@.contains(k as u8))),
{
    let mut next = out.clone();
    proof {
        assert(next@ =~= out@);
    }
    let mut d: usize = 0;
    while d < info.defs.len()
        invariant
            d <= info.defs@.len(),
            next@.len() == REG_COUNT,
            out@.len() == REG_COUNT,
            forall|k: int|
                0 <= k < REG_COUNT ==> #[trigger] next@[k] == (out@[k] && !info.defs@.take(
                    d as int,
                ).contains(k as u8)),
        decreases info.defs@.len() - d,
    {
        let reg = info.defs[d];
        next.set(reg as usize, false);
        proof {
            assert forall|k: int| 0 <= k < REG_COUNT implies #[trigger] next@[k] == (out@[k]
                && !info.defs@.take(d + 1).contains(k as u8)) by {
                assert(info.defs@.take(d + 1) =~= info.defs@.take(d as int).push(reg));
                if k == reg as int {
                    assert(info.defs@.take(d + 1)[d as int] == reg);
                } else {
                    if info.defs@.take(d + 1).contains(k as u8) {
                        let w = choose|w: int| 0 <= w < d + 1 && #[trigger] info.defs@.take(d + 1)[w] == k as u8;
                        assert(w < d);
                        assert(info.defs@.take(d as int)[w] == k as u8);
                    }
                    if info.defs@.take(d as int).contains(k as u8) {
                        let w = choose|w: int| 0 <= w < d && #[trigger] info.defs@.take(d as int)[w] == k as u8;
                        assert(info.defs@.take(d + 1)[w] == k as u8);
                    }
                }
            }
        }
        d = d + 1;
    }
    proof {
        assert(info.defs@.take(info.defs@.len() as int) =~= info.defs@);
    }
    let ghost after_defs = next@;
    let mut u: usize = 0;
    while u < info.uses.len()
        invariant
            u <= info.uses@.len(),
            next@.len() == REG_COUNT,
            forall|k: int|
                0 <= k < REG_COUNT ==> #[trigger] next@[k] == (info.uses@.take(u as int).contains(
                    k as u8,
                ) || after_defs[k]),
        decreases info.uses@.len() - u,
    {
        let reg = info.uses[u];
        next.set(reg as usize, true);
        proof {
            assert forall|k: int| 0 <= k < REG_COUNT implies #[trigger] next@[k] == (info.uses@.take(
                u + 1,
            ).contains(k as u8) || after_defs[k]) by {
                if k == reg as int {
                    assert(info.uses@.take(u + 1)[u as int] == reg);
                } else {
                    if info.uses@.take(u + 1).contains(k as u8) {
                        let w = choose|w: int| 0 <= w < u + 1 && #[trigger] info.uses@.take(u + 1)[w] == k as u8;
                        assert(w < u);
                        assert(info.uses@.take(u as int)[w] == k as u8);
                    }
                    if info.uses@.take(u as int).contains(k as u8) {
                        let w = choose|w: int| 0 <= w < u && #[trigger] info.uses@.take(u as int)[w] == k as u8;
                        assert(info.uses@.take(u + 1)[w] == k as u8);
                    }
                }
            }
        }
        u = u + 1;
    }
    proof {
        assert(info.uses@.take(info.uses@.len() as int) =~= info.uses@);
    }
    next
}

fn same_row(x: &Vec<bool>, y: &Vec<bool>) -> (r: bool)
    requires
        x@.len() == REG_COUNT,
        y@.len() == REG_COUNT,
    ensures
        r == (x@ == y@),
{
    let mut k: usize = 0;
    while k < REG_COUNT
        invariant
            x@.len() == REG_COUNT,
            y@.len() == REG_COUNT,
            k <= REG_COUNT,
            forall|j: int| 0 <= j < k ==> x@[j] == y@[j],
        decreases REG_COUNT - k,
    {
        if x[k] != y[k] {
            return false;
        }
        k = k + 1;
    }
    proof {
        assert(x@ =~= y@);
    }
    true
}

fn empty_rows(n: usize) -> (r: Vec<Vec<bool>>)
    ensures
        rows_ok(r@, n as int),
        forall|q: int, k: int| 0 <= q < n && 0 <= k < REG_COUNT ==> !(#[trigger] r@[q]@[k]),
{
    let mut rows: Vec<Vec<bool>> = Vec::new();
    let mut i: usize = 0;
    while i < n
        invariant
            i <= n,
            rows_ok(rows@, i as int),
            forall|q: int, k: int| 0 <= q < i && 0 <= k < REG_COUNT ==> !(#[trigger] rows@[q]@[k]),
        decreases n - i,
    {
        let mut row: Vec<bool> = Vec::new();
        let mut k: usize = 0;
        while k < REG_COUNT
            invariant
                k <= REG_COUNT,
                row@.len() == k,
                forall|j: int| 0 <= j < k ==> !(#[trigger] row@[j]),
            decreases REG_COUNT - k,
        {
            row.push(false);
            k = k + 1;
        }
        rows.push(row);
        i = i + 1;
    }
    rows
}

/// Solves the backward liveness equations: the result rows give, for each
/// instruction, the registers live on entry and the registers live after
/// it, and satisfy `is_fixpoint`.
pub fn solve_liveness(sem: &Vec<InstructionSemantics>) -> (r: (Vec<Vec<bool>>, Vec<Vec<bool>>))
    requires
        successors_ok(sem@, sem@.len() as int),
    ensures
        rows_ok(r.0@, sem@.len() as int),
        rows_ok(r.1@, sem@.len() as int),
        is_fixpoint(sem@, r.0@, r.1@),
        below_every_fixpoint(sem@, r.0@, r.1@),
{
    let n = sem.len();
    let mut live_in = empty_rows(n);
    let mut live_out = empty_rows(n);
    proof {
        lemma_total_max(live_in@, n as int);
        lemma_total_max(live_out@, n as int);
    }
    loop
        invariant
            n == sem@.len(),
            successors_ok(sem@, n as int),
            rows_ok(live_in@, n as int),
            rows_ok(live_out@, n as int),
            below_fixpoint(sem@, live_in@, live_out@),
            below_every_fixpoint(sem@, live_in@, live_out@),
        ensures
            rows_ok(live_in@, n as int),
            rows_ok(live_out@, n as int),
            is_fixpoint(sem@, live_in@, live_out@),
            below_every_fixpoint(sem@, live_in@, live_out@),
        decreases 2 * n * REG_COUNT - total(live_in@, n as int) - total(live_out@, n as int),
    {
        let ghost start_in = live_in@;
        let ghost start_out = live_out@;
        proof {
            lemma_total_max(live_in@, n as int);
            lemma_total_max(live_out@, n as int);
        }
        let mut changed = false;
        let mut pc: usize = n;
        while pc > 0
            invariant
                n == sem@.len(),
                pc <= n,
                successors_ok(sem@, n as int),
                rows_ok(live_in@, n as int),
                rows_ok(live_out@, n as int),
                below_fixpoint(sem@, live_in@, live_out@),
                below_every_fixpoint(sem@, live_in@, live_out@),
                total(live_in@, n as int) + total(live_out@, n as int) >= total(start_in, n as int)
                    + total(start_out, n as int),
                changed ==> total(live_in@, n as int) + total(live_out@, n as int) > total(
                    start_in,
                    n as int,
                ) + total(start_out, n as int),
                !changed ==> live_in@ == start_in && live_out@ == start_out,
                !changed ==> solved_from(sem@, live_in@, live_out@, pc as int),
            decreases pc,
        {
            pc = pc - 1;
            let next_out = compute_out(sem, &live_in, pc);
            proof {
                assert forall|k: int| 0 <= k < REG_COUNT && #[trigger] live_out@[pc as int]@[k] implies next_out@[k] by {
                    assert(live_out@[pc as int]@[k] ==> out_bit(sem@, live_in@, pc as int, k));
                }
            }
            if !same_row(&live_out[pc], &next_out) {
                let ghost old_out = live_out@;
                proof {
                    lemma_total_grow(live_out@, pc as int, next_out);
                }
                live_out.set(pc, next_out);
                proof {
                    assert forall|fi: Seq<Vec<bool>>, fo: Seq<Vec<bool>>|
                        #[trigger] is_fixpoint(sem@, fi, fo) && rows_ok(fi, n as int) && rows_ok(fo, n as int)
                        implies rows_within(live_in@, fi, n as int) && rows_within(live_out@, fo, n as int) by {
                        assert(rows_within(old_out, fo, n as int));
                        assert forall|q: int, k: int| 0 <= q < n && 0 <= k < REG_COUNT && #[trigger] live_out@[q]@[k]
                            implies fo[q]@[k] by {
                            if q == pc {
                                let j = choose|j: int|
                                    0 <= j < sem@[q].successors@.len() && #[trigger] live_in@[sem@[q].successors@[j] as int]@[k];
                                assert(fi[sem@[q].successors@[j] as int]@[k]);
                                assert(out_bit(sem@, fi, q, k));
                            } else {
                                assert(live_out@[q] == old_out[q]);
                            }
                        }
                    }
                    assert forall|q: int, k: int|
                        0 <= q < n && 0 <= k < REG_COUNT && #[trigger] live_out@[q]@[k] implies out_bit(sem@, live_in@, q, k) by {
                        if q != pc {
                            assert(live_out@[q] == old_out[q]);
                        }
                    }
                    assert forall|q: int, k: int|
                        0 <= q < n && 0 <= k < REG_COUNT && #[trigger] live_in@[q]@[k] implies in_bit(sem@, live_out@[q]@, q, k) by {
                        if q != pc {
                            assert(live_out@[q] == old_out[q]);
                        } else {
                            assert(in_bit(sem@, old_out[q]@, q, k));
                        }
                    }
                }
                changed = true;
            }
            let next_in = compute_in(&sem[pc], &live_out[pc]);
            proof {
                assert forall|k: int| 0 <= k < REG_COUNT && #[trigger] live_in@[pc as int]@[k] implies next_in@[k] by {
                    assert(live_in@[pc as int]@[k] ==> in_bit(sem@, live_out@[pc as int]@, pc as int, k));
                }
            }
            if !same_row(&live_in[pc], &next_in) {
                let ghost old_in = live_in@;
                proof {
                    lemma_total_grow(live_in@, pc as int, next_in);
                }
                live_in.set(pc, next_in);
                proof {
                    assert forall|fi: Seq<Vec<bool>>, fo: Seq<Vec<bool>>|
                        #[trigger] is_fixpoint(sem@, fi, fo) && rows_ok(fi, n as int) && rows_ok(fo, n as int)
                        implies rows_within(live_in@, fi, n as int) && rows_within(live_out@, fo, n as int) by {
                        assert(rows_within(old_in, fi, n as int));
                        assert forall|q: int, k: int| 0 <= q < n && 0 <= k < REG_COUNT && #[trigger] live_in@[q]@[k]
                            implies fi[q]@[k] by {
                            if q == pc {
                                assert(in_bit(sem@, fo[q]@, q, k));
                            } else {
                                assert(live_in@[q] == old_in[q]);
                            }
                        }
                    }
                    assert forall|q: int, k: int|
                        0 <= q < n && 0 <= k < REG_COUNT && #[trigger] live_out@[q]@[k] implies out_bit(sem@, live_in@, q, k) by {
                        assert(out_bit(sem@, old_in, q, k));
                        let j = choose|j: int|
                            0 <= j < sem@[q].successors@.len() && #[trigger] old_in[sem@[q].successors@[j] as int]@[k];
                        let s = sem@[q].successors@[j] as int;
                        assert(live_in@[s]@[k]) by {
                            if s == pc {
                                assert(old_in[s]@[k] ==> next_in@[k]);
                            } else {
                                assert(live_in@[s] == old_in[s]);
                            }
                        }
                    }
                    assert forall|q: int, k: int|
                        0 <= q < n && 0 <= k < REG_COUNT && #[trigger] live_in@[q]@[k] implies in_bit(sem@, live_out@[q]@, q, k) by {
                        if q != pc {
                            assert(live_in@[q] == old_in[q]);
                        }
                    }
                }
                changed = true;
            }
            proof {
                if !changed {
                    assert forall|q: int, k: int|
                        pc <= q < n && 0 <= k < REG_COUNT implies #[trigger] live_out@[q]@[k] == out_bit(sem@, live_in@, q, k) by {
                        if q == pc {
                            assert(live_out@[q]@ == next_out@);
                        }
                    }
                    assert forall|q: int, k: int|
                        pc <= q < n && 0 <= k < REG_COUNT implies #[trigger] live_in@[q]@[k] == in_bit(sem@, live_out@[q]@, q, k) by {
                        if q == pc {
                            assert(live_in@[q]@ == next_in@);
                        }
                    }
                }
            }
        }
        proof {
            lemma_total_max(live_in@, n as int);
            lemma_total_max(live_out@, n as int);
        }
        if !changed {
            break;
        }
    }
    (live_in, live_out)
}

/// The least solution of the liveness equations is unique: two solutions
/// that each lie within every solution have the same rows.
pub proof fn law_least_fixpoint_unique(
    sem: Seq<InstructionSemantics>,
    a_in: Seq<Vec<bool>>,
    a_out: Seq<Vec<bool>>,
    b_in: Seq<Vec<bool>>,
    b_out: Seq<Vec<bool>>,
)
    requires
        rows_ok(a_in, sem.len() as int),
        rows_ok(a_out, sem.len() as int),
        rows_ok(b_in, sem.len() as int),
        rows_ok(b_out, sem.len() as int),
        is_fixpoint(sem, a_in, a_out),
        is_fixpoint(sem, b_in, b_out),
        below_every_fixpoint(sem, a_in, a_out),
        below_every_fixpoint(sem, b_in, b_out),
    ensures
        forall|q: int| 0 <= q < sem.len() ==> (#[trigger] a_in[q])@ == b_in[q]@ && a_out[q]@ == b_out[q]@,
{
    assert(rows_within(a_in, b_in, sem.len() as int) && rows_within(a_out, b_out, sem.len() as int));
    assert(rows_within(b_in, a_in, sem.len() as int) && rows_within(b_out, a_out, sem.len() as int));
    assert forall|q: int| 0 <= q < sem.len() implies (#[trigger] a_in[q])@ == b_in[q]@ && a_out[q]@ == b_out[q]@ by {
        assert forall|k: int| 0 <= k < REG_COUNT implies a_in[q]@[k] == b_in[q]@[k] by {
            if a_in[q]@[k] {
                assert(b_in[q]@[k]);
            }
            if b_in[q]@[k] {
                assert(a_in[q]@[k]);
            }
        }
        assert forall|k: int| 0 <= k < REG_COUNT implies a_out[q]@[k] == b_out[q]@[k] by {
            if a_out[q]@[k] {
                assert(b_out[q]@[k]);
            }
            if b_out[q]@[k] {
                assert(a_out[q]@[k]);
            }
        }
        assert(a_in[q]@ =~= b_in[q]@);
        assert(a_out[q]@ =~= b_out[q]@);
    }
}

} // verus!
