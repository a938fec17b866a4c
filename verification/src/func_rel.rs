//! The function-relation matrix: how often two functions were met in the
//! same tracked run.

use crate::cond_stmt::CondStmt;
use crate::cond_stmt::CondStmtView;
use crate::cond_stmt::views;
use std::collections::HashSet;
use vstd::prelude::*;
use vstd::std_specs::hash::*;

verus! {

/// The matrix as rows of cells.
pub open spec fn cells(m: Seq<Vec<usize>>) -> Seq<Seq<usize>> {
    m.map_values(|row: Vec<usize>| row@)
}

/// Whether a condition of function `f` is among the conditions.
pub open spec fn met(conds: Seq<CondStmtView>, f: int) -> bool {
    exists|i: int| 0 <= i < conds.len() && (#[trigger] conds[i]).base.func == f
}

/// A count one higher, stopping at the maximum.
pub open spec fn one_more(n: usize) -> usize {
    if n == usize::MAX {
        n
    } else {
        (n + 1) as usize
    }
}

/// The matrix after a run that met `conds`: the cell of every pair of
/// functions that were both met counts one more. Functions for which the
/// matrix has no row or no column are left out.
pub open spec fn recorded(m: Seq<Seq<usize>>, conds: Seq<CondStmtView>) -> Seq<Seq<usize>> {
    Seq::new(
        m.len(),
        |a: int|
            Seq::new(
                m[a].len(),
                |b: int|
                    if met(conds, a) && met(conds, b) {
                        one_more(m[a][b])
                    } else {
                        m[a][b]
                    },
            ),
    )
}

/// A run that met no condition leaves the matrix as it is.
pub proof fn lemma_nothing_met(m: Seq<Seq<usize>>)
    ensures
        recorded(m, Seq::<CondStmtView>::empty()) == m,
{
    let r = recorded(m, Seq::<CondStmtView>::empty());
    assert forall|a: int| 0 <= a < m.len() implies r[a] =~= m[a] by {
    }
    assert(r =~= m);
}

/// The functions of the conditions, each once.
fn functions_met(cond_list: &Vec<CondStmt>) -> (r: Vec<usize>)
    ensures
        r@.no_duplicates(),
        forall|f: usize| r@.contains(f) <==> met(views(cond_list@), f as int),
{
    broadcast use group_hash_axioms;

    let mut seen: HashSet<usize> = HashSet::new();
    let mut out: Vec<usize> = Vec::new();
    let mut i: usize = 0;
    while i < cond_list.len()
        invariant
            i <= cond_list.len(),
            out@.no_duplicates(),
            forall|f: usize| out@.contains(f) <==> seen@.contains(f),
            forall|f: usize| #[trigger]
                seen@.contains(f) <==> met(views(cond_list@).take(i as int), f as int),
        decreases cond_list.len() - i,
    {
        let f = cond_list[i].base.func as usize;
        let ghost out_before = out@;
        let ghost seen_before = seen@;
        let ghost front = views(cond_list@).take(i as int);
        let ghost next = views(cond_list@).take(i + 1);
        if seen.insert(f) {
            out.push(f);
            proof {
                assert(!out_before.contains(f));
                assert forall|a: int, b: int|
                    0 <= a < out@.len() && 0 <= b < out@.len() && a != b implies out@[a] != out@[b] by {
                    if a < out_before.len() && b < out_before.len() {
                        assert(out_before[a] != out_before[b]);
                    } else if a < out_before.len() {
                        assert(out_before.contains(out_before[a]));
                    } else {
                        assert(out_before.contains(out_before[b]));
                    }
                }
                assert forall|g: usize| out@.contains(g) <==> seen@.contains(g) by {
                    if out@.contains(g) {
                        let k = choose|k: int| 0 <= k < out@.len() && out@[k] == g;
                        if k < out_before.len() {
                            assert(out_before[k] == g);
                            assert(out_before.contains(g));
                        }
                    }
                    if seen@.contains(g) {
                        if g == f {
                            assert(out@[out_before.len() as int] == f);
                        } else {
                            assert(out_before.contains(g));
                            let k = choose|k: int| 0 <= k < out_before.len() && out_before[k] == g;
                            assert(out@[k] == g);
                        }
                    }
                }
            }
        }
        proof {
            assert forall|g: usize| #[trigger] seen@.contains(g) <==> met(next, g as int) by {
                if seen@.contains(g) {
                    if seen_before.contains(g) {
                        let k = choose|k: int|
                            0 <= k < front.len() && (#[trigger] front[k]).base.func == g as int;
                        assert(next[k] == front[k]);
                    } else {
                        assert(next[i as int].base.func == g as int);
                    }
                }
                if met(next, g as int) {
                    let k = choose|k: int|
                        0 <= k < next.len() && (#[trigger] next[k]).base.func == g as int;
                    if k < i {
                        assert(front[k] == next[k]);
                        assert(met(front, g as int));
                    }
                }
            }
        }
        i += 1;
    }
    proof {
        assert(views(cond_list@).take(i as int) =~= views(cond_list@));
    }
    out
}

/// Counts, for a tracked run that met `cond_list`, every pair of functions
/// that were both met; see [`recorded`].
pub fn record_functions(func_rel_map: &mut Vec<Vec<usize>>, cond_list: &Vec<CondStmt>)
    ensures
        cells(final(func_rel_map)@) == recorded(cells(old(func_rel_map)@), views(cond_list@)),
{
    let ghost before = cells(func_rel_map@);
    let funcs = functions_met(cond_list);
    let mut p: usize = 0;
    while p < funcs.len()
        invariant
            p <= funcs.len(),
            funcs@.no_duplicates(),
            forall|f: usize| funcs@.contains(f) <==> met(views(cond_list@), f as int),
            func_rel_map@.len() == before.len(),
            forall|a: int|
                0 <= a < before.len() ==> (#[trigger] func_rel_map@[a])@.len() == before[a].len(),
            forall|a: int, b: int|
                0 <= a < before.len() && 0 <= b < before[a].len() ==> #[trigger] func_rel_map@[a]@[b]
                    == if (exists|k: int| 0 <= k < p && funcs@[k] == a) && met(views(cond_list@), b) {
                    one_more(before[a][b])
                } else {
                    before[a][b]
                },
        decreases funcs.len() - p,
    {
        let x = funcs[p];
        if x < func_rel_map.len() {
            let ghost at_row = func_rel_map@;
            let mut q: usize = 0;
            while q < funcs.len()
                invariant
                    q <= funcs.len(),
                    p < funcs.len(),
                    x == funcs@[p as int],
                    x < func_rel_map@.len(),
                    funcs@.no_duplicates(),
                    forall|f: usize| funcs@.contains(f) <==> met(views(cond_list@), f as int),
                    func_rel_map@.len() == before.len(),
                    at_row.len() == before.len(),
                    forall|a: int|
                        0 <= a < before.len() ==> (#[trigger] func_rel_map@[a])@.len() == before[a].len(),
                    forall|a: int|
                        0 <= a < before.len() && a != x ==> #[trigger] func_rel_map@[a] == at_row[a],
                    forall|b: int|
                        0 <= b < before[x as int].len() ==> #[trigger] func_rel_map@[x as int]@[b]
                            == if exists|k: int| 0 <= k < q && funcs@[k] == b {
                            one_more(before[x as int][b])
                        } else {
                            before[x as int][b]
                        },
                decreases funcs.len() - q,
            {
                let y = funcs[q];
                if y < func_rel_map[x].len() {
                    let n = func_rel_map[x][y];
                    let ghost row_before = func_rel_map@[x as int]@;
                    if n < usize::MAX {
                        func_rel_map[x][y] = n + 1;
                    }
                    proof {
                        assert forall|b: int| 0 <= b < before[x as int].len() implies #[trigger] func_rel_map@[x as int]@[b]
                            == if exists|k: int| 0 <= k < q + 1 && funcs@[k] == b {
                            one_more(before[x as int][b])
                        } else {
                            before[x as int][b]
                        } by {
                            if b == y {
                                assert(funcs@[q as int] == b);
                                if exists|k: int| 0 <= k < q && funcs@[k] == b {
                                    let k = choose|k: int| 0 <= k < q && funcs@[k] == b;
                                    assert(funcs@[k] == funcs@[q as int]);
                                }
                            } else {
                                assert(func_rel_map@[x as int]@[b] == row_before[b]);
                                if exists|k: int| 0 <= k < q + 1 && funcs@[k] == b {
                                    let k = choose|k: int| 0 <= k < q + 1 && funcs@[k] == b;
                                    assert(k < q);
                                }
                            }
                        }
                    }
                }
                q += 1;
            }
            proof {
                assert forall|a: int, b: int|
                    0 <= a < before.len() && 0 <= b < before[a].len() implies #[trigger] func_rel_map@[a]@[b]
                    == if (exists|k: int| 0 <= k < p + 1 && funcs@[k] == a) && met(views(cond_list@), b) {
                    one_more(before[a][b])
                } else {
                    before[a][b]
                } by {
                    if a == x {
                        assert(funcs@[p as int] == a);
                        if exists|k: int| 0 <= k < p && funcs@[k] == a {
                            let k = choose|k: int| 0 <= k < p && funcs@[k] == a;
                            assert(funcs@[k] == funcs@[p as int]);
                        }
                        if met(views(cond_list@), b) {
                            assert(funcs@.contains(b as usize));
                            let k = choose|k: int| 0 <= k < funcs@.len() && funcs@[k] == b as usize;
                            assert(0 <= k < q && funcs@[k] == b);
                        }
                        if exists|k: int| 0 <= k < q && funcs@[k] == b {
                            let k = choose|k: int| 0 <= k < q && funcs@[k] == b;
                            assert(funcs@.contains(funcs@[k]));
                        }
                    } else {
                        assert(func_rel_map@[a] == at_row[a]);
                        if exists|k: int| 0 <= k < p + 1 && funcs@[k] == a {
                            let k = choose|k: int| 0 <= k < p + 1 && funcs@[k] == a;
                            assert(k < p);
                        }
                    }
                }
            }
        } else {
            proof {
                assert forall|a: int, b: int|
                    0 <= a < before.len() && 0 <= b < before[a].len() implies #[trigger] func_rel_map@[a]@[b]
                    == if (exists|k: int| 0 <= k < p + 1 && funcs@[k] == a) && met(views(cond_list@), b) {
                    one_more(before[a][b])
                } else {
                    before[a][b]
                } by {
                    if exists|k: int| 0 <= k < p + 1 && funcs@[k] == a {
                        let k = choose|k: int| 0 <= k < p + 1 && funcs@[k] == a;
                        assert(k < p);
                    }
                }
            }
        }
        p += 1;
    }
    proof {
        let after = cells(func_rel_map@);
        let want = recorded(before, views(cond_list@));
        assert(after.len() == want.len());
        assert forall|a: int| 0 <= a < after.len() implies after[a] =~= want[a] by {
            assert(after[a] == func_rel_map@[a]@);
            assert forall|b: int| 0 <= b < before[a].len() implies func_rel_map@[a]@[b] == want[a][b] by {
                if met(views(cond_list@), a) {
                    assert(funcs@.contains(a as usize));
                    let k = choose|k: int| 0 <= k < funcs@.len() && funcs@[k] == a as usize;
                    assert(0 <= k < p && funcs@[k] == a);
                }
                if exists|k: int| 0 <= k < p && funcs@[k] == a {
                    let k = choose|k: int| 0 <= k < p && funcs@[k] == a;
                    assert(funcs@.contains(funcs@[k]));
                }
            }
        }
        assert(after =~= want);
    }
}

} // verus!
