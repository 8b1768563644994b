//! Round tables in the shapes in which they are published.
//!
//! Diffusion matrices are often given as a circulant first row with a
//! diagonal correction, and round constants as one flat table with full
//! rounds at both ends and partial rounds between them.

use crate::field::{add_mod, sum};
use crate::params::Round;
use vstd::prelude::*;

verus! {

/// How far column `c` lies to the right of the diagonal in row `r` of a
/// circulant matrix with `n` columns, wrapping round.
pub open spec fn shift(n: int, r: int, c: int) -> int {
    if c >= r {
        c - r
    } else {
        n - (r - c)
    }
}

/// The entry in row `r`, column `c` of the circulant matrix of `circ` with
/// `diag` added on the diagonal.
pub open spec fn circulant_entry(circ: Seq<u64>, diag: Seq<u64>, r: int, c: int) -> u64 {
    if r == c {
        sum(circ[0], diag[r])
    } else {
        circ[shift(circ.len() as int, r, c)]
    }
}

/// Whether round `r` is full, with `half_full` full rounds before and after
/// `partial` partial ones.
pub open spec fn is_full(half_full: int, partial: int, r: int) -> bool {
    r < half_full || r >= half_full + partial
}

/// Builds the diffusion matrix from its circulant first row and its diagonal
/// correction: `None` if the two differ in length.
pub fn circulant_mds(circ: &Vec<u64>, diag: &Vec<u64>) -> (result: Option<Vec<Vec<u64>>>)
    ensures
        result is Some <==> circ@.len() == diag@.len(),
        result matches Some(rows) ==> {
            &&& rows@.len() == circ@.len()
            &&& forall|r: int| 0 <= r < rows@.len() ==> (#[trigger] rows@[r])@.len() == circ@.len()
            &&& forall|r: int, c: int|
                0 <= r < rows@.len() && 0 <= c < rows@.len() ==> #[trigger] rows@[r]@[c]
                    == circulant_entry(circ@, diag@, r, c)
        },
{
    let n: usize = circ.len();
    if diag.len() != n {
        return None;
    }
    let mut rows: Vec<Vec<u64>> = Vec::new();
    let mut r: usize = 0;
    while r < n
        invariant
            n == circ@.len(),
            n == diag@.len(),
            r <= n,
            rows@.len() == r,
            forall|i: int| 0 <= i < r ==> (#[trigger] rows@[i])@.len() == n,
            forall|i: int, c: int|
                0 <= i < r && 0 <= c < n ==> #[trigger] rows@[i]@[c] == circulant_entry(
                    circ@,
                    diag@,
                    i,
                    c,
                ),
        decreases n - r,
    {
        let mut row: Vec<u64> = Vec::new();
        let mut c: usize = 0;
        while c < n
            invariant
                n == circ@.len(),
                n == diag@.len(),
                r < n,
                c <= n,
                row@.len() == c,
                forall|j: int|
                    0 <= j < c ==> #[trigger] row@[j] == circulant_entry(circ@, diag@, r as int, j),
            decreases n - c,
        {
            let entry: u64 = if c == r {
                add_mod(circ[0], diag[r])
            } else if c > r {
                circ[c - r]
            } else {
                circ[n - (r - c)]
            };
            row.push(entry);
            c = c + 1;
        }
        rows.push(row);
        r = r + 1;
    }
    Some(rows)
}

/// Cuts a flat table of round constants into rounds of `width` constants,
/// the first and the last `half_full` rounds full and the `partial` rounds
/// between them partial: `None` unless the state has a lane and the table
/// holds exactly `(2 * half_full + partial) * width` constants.
pub fn rounds_from_table(table: &Vec<u64>, width: usize, half_full: usize, partial: usize) -> (result:
    Option<Vec<Round>>)
    ensures
        result is Some <==> width >= 1 && (2 * half_full + partial) * width == table@.len(),
        result matches Some(rounds) ==> {
            &&& rounds@.len() == 2 * half_full + partial
            &&& forall|r: int|
                0 <= r < rounds@.len() ==> {
                    &&& (#[trigger] rounds@[r]).full == is_full(
                        half_full as int,
                        partial as int,
                        r,
                    )
                    &&& rounds@[r].constants@ == table@.subrange(r * width, r * width + width)
                }
        },
{
    if width == 0 {
        return None;
    }
    let len: usize = table.len();
    proof {
        lemma_product_at_least(2 * half_full + partial, width);
    }
    let doubled: usize = match half_full.checked_mul(2) {
        Some(v) => v,
        None => {
            return None;
        },
    };
    let count: usize = match doubled.checked_add(partial) {
        Some(v) => v,
        None => {
            return None;
        },
    };
    match count.checked_mul(width) {
        Some(total) => {
            if total != len {
                return None;
            }
        },
        None => {
            return None;
        },
    }
    let mut rounds: Vec<Round> = Vec::new();
    let mut offset: usize = 0;
    let mut r: usize = 0;
    while r < count
        invariant
            count == 2 * half_full + partial,
            len == table@.len(),
            count * width == len,
            r <= count,
            offset == r * width,
            rounds@.len() == r,
            forall|i: int|
                0 <= i < r ==> {
                    &&& (#[trigger] rounds@[i]).full == is_full(
                        half_full as int,
                        partial as int,
                        i,
                    )
                    &&& rounds@[i].constants@ == table@.subrange(i * width, i * width + width)
                },
        decreases count - r,
    {
        proof {
            assert((r + 1) * width <= count * width) by (nonlinear_arith)
                requires
                    r + 1 <= count,
                    0 <= width,
            ;
            assert((r + 1) * width == r * width + width) by (nonlinear_arith);
        }
        let mut constants: Vec<u64> = Vec::new();
        let mut j: usize = 0;
        while j < width
            invariant
                len == table@.len(),
                offset + width <= len,
                j <= width,
                constants@.len() == j,
                forall|i: int| 0 <= i < j ==> constants@[i] == table@[offset + i],
            decreases width - j,
        {
            constants.push(table[offset + j]);
            j = j + 1;
        }
        assert(constants@ =~= table@.subrange(r * width, r * width + width));
        let full: bool = r < half_full || r - half_full >= partial;
        rounds.push(Round { constants, full });
        offset = offset + width;
        r = r + 1;
    }
    Some(rounds)
}

/// A product with a positive factor is at least the other factor.
proof fn lemma_product_at_least(count: int, width: usize)
    requires
        count >= 0,
        width >= 1,
    ensures
        count * width >= count,
{
    assert(count * width >= count) by (nonlinear_arith)
        requires
            width >= 1,
            count >= 0,
    ;
}

} // verus!
