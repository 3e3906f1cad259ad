//! Pascal's triangle with the field's own addition, and what it says of the
//! binomial coefficients.

use crate::field::Ring;
use vstd::prelude::*;

verus! {

/// The binomial coefficient `n` over `k`.
pub open spec fn binomial(n: nat, k: nat) -> nat
    decreases n,
{
    if k == 0 {
        1
    } else if n == 0 {
        0
    } else {
        binomial((n - 1) as nat, (k - 1) as nat) + binomial((n - 1) as nat, k)
    }
}

/// The entry at position `k` of row `n` of the triangle over the field: one
/// on both borders, the sum of the two entries above it inside, zero beyond
/// the row.
pub open spec fn pascal_entry<T: Ring>(n: nat, k: nat) -> T
    decreases n,
{
    if k > n {
        T::zero_elem()
    } else if k == 0 || k == n {
        T::one_elem()
    } else {
        pascal_entry::<T>((n - 1) as nat, (k - 1) as nat).plus(
            pascal_entry::<T>((n - 1) as nat, k),
        )
    }
}

/// What an integer coefficient is where `1 + 1 = 0`: zero if it is even, one
/// if it is odd.
pub open spec fn parity_entry<T: Ring>(coefficient: nat) -> T {
    if coefficient % 2 == 0 {
        T::zero_elem()
    } else {
        T::one_elem()
    }
}

/// `rows` are the first rows of the triangle over the field.
pub open spec fn is_triangle<T: Ring>(rows: Seq<Vec<T>>) -> bool {
    forall|n: int|
        0 <= n < rows.len() ==> {
            &&& (#[trigger] rows[n]).len() == n + 1
            &&& forall|k: int|
                0 <= k <= n ==> #[trigger] rows[n][k] == pascal_entry::<T>(n as nat, k as nat)
        }
}

/// The rows `0` to `n` of Pascal's triangle over the field. Where the field
/// has characteristic two, the entries are the integer binomial coefficients
/// by their parity.
pub fn pascal_tri<T: Ring>(n: usize) -> (pascal: Vec<Vec<T>>)
    requires
        n < usize::MAX,
    ensures
        pascal.len() == n + 1,
        is_triangle(pascal@),
        forall|r: int, k: int|
            0 < r <= n && 0 < k < r ==> #[trigger] pascal[r][k] == pascal[r - 1][k - 1].plus(
                pascal[r - 1][k],
            ),
        forall|r: int|
            0 <= r <= n ==> (#[trigger] pascal[r])[0] == T::one_elem() && pascal[r][r]
                == T::one_elem(),
        T::one_elem().plus(T::one_elem()) == T::zero_elem() ==> forall|r: int, k: int|
            0 <= k <= r <= n ==> #[trigger] pascal[r][k] == parity_entry::<T>(
                binomial(r as nat, k as nat),
            ),
{
    let mut first: Vec<T> = Vec::new();
    first.push(T::one());
    let mut pascal: Vec<Vec<T>> = Vec::new();
    pascal.push(first);
    let mut done: usize = 0;
    while done < n
        invariant
            done <= n,
            n < usize::MAX,
            pascal.len() == done + 1,
            is_triangle(pascal@),
        decreases n - done,
    {
        let last_row = &pascal[done];
        let mut new_row: Vec<T> = Vec::new();
        new_row.push(T::one());
        let mut j: usize = 0;
        while j < done
            invariant
                j <= done,
                last_row.len() == done + 1,
                new_row.len() == j + 1,
                forall|k: int|
                    0 <= k <= done ==> #[trigger] last_row[k] == pascal_entry::<T>(
                        done as nat,
                        k as nat,
                    ),
                forall|k: int|
                    0 <= k <= j ==> #[trigger] new_row[k] == pascal_entry::<T>(
                        (done + 1) as nat,
                        k as nat,
                    ),
            decreases done - j,
        {
            proof {
                lemma_entry_valid::<T>(done as nat, j as nat);
                lemma_entry_valid::<T>(done as nat, (j + 1) as nat);
            }
            let el = last_row[j].add(last_row[j + 1]);
            new_row.push(el);
            j = j + 1;
        }
        new_row.push(T::one());
        pascal.push(new_row);
        done = done + 1;
    }
    proof {
        if T::one_elem().plus(T::one_elem()) == T::zero_elem() {
            assert forall|r: int, k: int| 0 <= k <= r <= n implies #[trigger] pascal[r][k]
                == parity_entry::<T>(binomial(r as nat, k as nat)) by {
                lemma_pascal_characteristic_two::<T>(r as nat, k as nat);
            }
        }
    }
    pascal
}

/// Every entry of the triangle is a valid element.
pub proof fn lemma_entry_valid<T: Ring>(n: nat, k: nat)
    ensures
        pascal_entry::<T>(n, k).valid(),
    decreases n,
{
    let z = T::zero_elem();
    T::lemma_results_valid(z, z);
    if k > n || k == 0 || k == n {
    } else {
        T::lemma_results_valid(
            pascal_entry::<T>((n - 1) as nat, (k - 1) as nat),
            pascal_entry::<T>((n - 1) as nat, k),
        );
    }
}

/// Each entry inside a row is the sum, in the field, of the two entries
/// above it; the entries on the border are one.
pub proof fn lemma_pascal_recurrence<T: Ring>(n: nat, k: nat)
    requires
        k <= n,
    ensures
        0 < k < n ==> pascal_entry::<T>(n, k) == pascal_entry::<T>((n - 1) as nat, (k - 1) as nat).plus(
            pascal_entry::<T>((n - 1) as nat, k),
        ),
        k == 0 || k == n ==> pascal_entry::<T>(n, k) == T::one_elem(),
{
}

/// The integer coefficients obey the same recurrence, vanish beyond the row
/// and are one on its borders.
pub proof fn lemma_binomial_basics(n: nat, k: nat)
    ensures
        k > n ==> binomial(n, k) == 0,
        k == 0 || k == n ==> binomial(n, k) == 1,
        0 < k && 0 < n ==> binomial(n, k) == binomial((n - 1) as nat, (k - 1) as nat) + binomial(
            (n - 1) as nat,
            k,
        ),
    decreases n,
{
    if n > 0 && k > 0 {
        lemma_binomial_basics((n - 1) as nat, (k - 1) as nat);
        lemma_binomial_basics((n - 1) as nat, k);
    }
}

/// Where `1 + 1 = 0`, an entry of the triangle is zero if the binomial
/// coefficient at its place is even, and one if it is odd.
pub proof fn lemma_pascal_characteristic_two<T: Ring>(n: nat, k: nat)
    requires
        T::one_elem().plus(T::one_elem()) == T::zero_elem(),
        k <= n,
    ensures
        pascal_entry::<T>(n, k) == parity_entry::<T>(binomial(n, k)),
    decreases n,
{
    let zero = T::zero_elem();
    let one = T::one_elem();
    lemma_binomial_basics(n, k);
    if k == 0 || k == n {
    } else {
        let left = pascal_entry::<T>((n - 1) as nat, (k - 1) as nat);
        let right = pascal_entry::<T>((n - 1) as nat, k);
        lemma_pascal_characteristic_two::<T>((n - 1) as nat, (k - 1) as nat);
        lemma_pascal_characteristic_two::<T>((n - 1) as nat, k);
        T::lemma_results_valid(zero, one);
        T::lemma_plus_zero(zero);
        T::lemma_plus_zero(one);
        T::lemma_plus_commutes(zero, one);
        assert(pascal_entry::<T>(n, k) == left.plus(right));
        assert(binomial(n, k) == binomial((n - 1) as nat, (k - 1) as nat) + binomial(
            (n - 1) as nat,
            k,
        ));
    }
}

} // verus!
