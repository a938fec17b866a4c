//! The two tables the fuzzer leaves behind when it ends, as text: the
//! function-relation matrix and the branch-coverage ledger.

use crate::defs::BRANCH_COV_HEADER;
use crate::func_rel::cells;
use crate::text::decimal;
use crate::text::decimal_string;
use vstd::prelude::*;
use vstd::string::*;

verus! {

/// A number and a comma.
pub open spec fn field(n: nat) -> Seq<char> {
    decimal(n) + seq![',']
}

/// The numbers below `n`, each followed by a comma.
pub open spec fn column_heads(n: nat) -> Seq<char>
    decreases n,
{
    if n == 0 {
        Seq::empty()
    } else {
        column_heads((n - 1) as nat) + field((n - 1) as nat)
    }
}

/// The counts of a row, each followed by a comma.
pub open spec fn counts(row: Seq<usize>) -> Seq<char>
    decreases row.len(),
{
    if row.len() == 0 {
        Seq::empty()
    } else {
        counts(row.drop_last()) + field(row.last() as nat)
    }
}

/// The first `n` rows of the matrix, each as a line: the row's number, its
/// counts, and a newline.
pub open spec fn matrix_lines(m: Seq<Seq<usize>>, n: nat) -> Seq<char>
    decreases n,
{
    if n == 0 {
        Seq::empty()
    } else {
        matrix_lines(m, (n - 1) as nat) + field((n - 1) as nat) + counts(m[n - 1]) + seq!['\n']
    }
}

/// The function-relation matrix as text: a line that heads the columns,
/// then one line for each row.
pub open spec fn func_rels(m: Seq<Seq<usize>>) -> Seq<char> {
    seq![','] + column_heads(m.len()) + seq!['\n'] + matrix_lines(m, m.len())
}

/// A row of the ledger as a line: its four numbers with commas between,
/// and a newline.
pub open spec fn ledger_line(row: (u32, u32, u32, u32)) -> Seq<char> {
    field(row.0 as nat) + field(row.1 as nat) + field(row.2 as nat) + decimal(row.3 as nat)
        + seq!['\n']
}

/// The rows of the ledger, each as a line.
pub open spec fn ledger_lines(rows: Seq<(u32, u32, u32, u32)>) -> Seq<char>
    decreases rows.len(),
{
    if rows.len() == 0 {
        Seq::empty()
    } else {
        ledger_lines(rows.drop_last()) + ledger_line(rows.last())
    }
}

/// The branch-coverage ledger as text: the heading, then one line for each row.
pub open spec fn branch_cov(rows: Seq<(u32, u32, u32, u32)>) -> Seq<char> {
    BRANCH_COV_HEADER@ + seq!['\n'] + ledger_lines(rows)
}

/// Appends a number and a comma.
fn push_field(s: &mut String, n: usize)
    ensures
        final(s)@ == old(s)@ + field(n as nat),
{
    proof {
        reveal_strlit(",");
    }
    let number = decimal_string(n);
    s.append(number.as_str());
    s.append(",");
    assert(s@ =~= old(s)@ + field(n as nat));
}

/// Appends a newline.
fn push_newline(s: &mut String)
    ensures
        final(s)@ == old(s)@ + seq!['\n'],
{
    proof {
        reveal_strlit("\n");
    }
    s.append("\n");
    assert(s@ =~= old(s)@ + seq!['\n']);
}

/// The function-relation matrix as text; see [`func_rels`].
pub fn func_rels_text(func_rel_map: &Vec<Vec<usize>>) -> (r: String)
    ensures
        r@ == func_rels(cells(func_rel_map@)),
{
    proof {
        reveal_strlit(",");
    }
    let ghost m = cells(func_rel_map@);
    let mut s = String::from_str(",");
    assert(s@ =~= seq![',']);
    let mut i: usize = 0;
    while i < func_rel_map.len()
        invariant
            i <= func_rel_map.len(),
            s@ == seq![','] + column_heads(i as nat),
        decreases func_rel_map.len() - i,
    {
        push_field(&mut s, i);
        assert(s@ =~= seq![','] + column_heads((i + 1) as nat));
        i += 1;
    }
    push_newline(&mut s);
    let ghost head = s@;
    let mut a: usize = 0;
    while a < func_rel_map.len()
        invariant
            a <= func_rel_map.len(),
            m == cells(func_rel_map@),
            s@ == head + matrix_lines(m, a as nat),
        decreases func_rel_map.len() - a,
    {
        let ghost before = s@;
        push_field(&mut s, a);
        let row = &func_rel_map[a];
        let ghost start = s@;
        let mut b: usize = 0;
        while b < row.len()
            invariant
                b <= row.len(),
                s@ == start + counts(row@.take(b as int)),
            decreases row.len() - b,
        {
            proof {
                assert(row@.take(b + 1).drop_last() =~= row@.take(b as int));
            }
            push_field(&mut s, row[b]);
            assert(s@ =~= start + counts(row@.take(b + 1)));
            b += 1;
        }
        push_newline(&mut s);
        proof {
            assert(row@.take(b as int) =~= row@);
            assert(m[a as int] == row@);
            assert(s@ =~= head + matrix_lines(m, (a + 1) as nat));
        }
        a += 1;
    }
    assert(s@ =~= func_rels(m));
    s
}

/// The branch-coverage ledger as text; see [`branch_cov`].
pub fn branch_cov_text(rows: &Vec<(u32, u32, u32, u32)>) -> (r: String)
    ensures
        r@ == branch_cov(rows@),
{
    let mut s = String::from_str(BRANCH_COV_HEADER);
    push_newline(&mut s);
    let ghost head = s@;
    let mut i: usize = 0;
    while i < rows.len()
        invariant
            i <= rows.len(),
            s@ == head + ledger_lines(rows@.take(i as int)),
        decreases rows.len() - i,
    {
        proof {
            assert(rows@.take(i + 1).drop_last() =~= rows@.take(i as int));
        }
        let row = rows[i];
        push_field(&mut s, row.0 as usize);
        push_field(&mut s, row.1 as usize);
        push_field(&mut s, row.2 as usize);
        let last = decimal_string(row.3 as usize);
        s.append(last.as_str());
        push_newline(&mut s);
        assert(s@ =~= head + ledger_lines(rows@.take(i + 1)));
        i += 1;
    }
    assert(rows@.take(i as int) =~= rows@);
    s
}

} // verus!
