//! Dense matrices by rows: parts of them, and sums into parts of them.
use crate::scalar::Scalar;
use vstd::prelude::*;

verus! {

/// A dense matrix, by rows.
#[derive(Clone, Debug, PartialEq, Eq)]
pub struct DenseMatrix {
    pub rows: usize,
    pub columns: usize,
    pub entries: Vec<Scalar>,
}

/// Places of a row or column are distinct and below `n`.
pub open spec fn are_places(places: Seq<usize>, n: int) -> bool {
    &&& forall|k: int| 0 <= k < places.len() ==> (#[trigger] places[k]) < n
    &&& forall|i: int, j: int| 0 <= i < j < places.len() ==> places[i] != places[j]
}

impl DenseMatrix {
    /// There is one entry for each row and column.
    pub open spec fn wf(self) -> bool {
        self.rows * self.columns == self.entries.len()
    }

    /// A square matrix of this size.
    pub open spec fn is_square(self, n: int) -> bool {
        self.wf() && self.rows == n && self.columns == n
    }

    /// The entry of a row and a column.
    pub open spec fn at(self, row: int, column: int) -> Scalar {
        self.entries[row * self.columns + column]
    }

    /// Equal in shape and entries.
    pub open spec fn same(self, other: DenseMatrix) -> bool {
        &&& self.rows == other.rows
        &&& self.columns == other.columns
        &&& self.entries@ == other.entries@
    }

    /// A square matrix of zeros.
    pub open spec fn is_zero(self, n: int) -> bool {
        &&& self.is_square(n)
        &&& forall|row: int, column: int|
            0 <= row < n && 0 <= column < n ==> #[trigger] self.at(row, column) == Scalar::zero()
    }

    /// `part` holds the rows and columns at these places.
    pub open spec fn has_part(self, places: Seq<usize>, part: DenseMatrix) -> bool {
        &&& part.is_square(places.len() as int)
        &&& forall|r: int, c: int|
            0 <= r < places.len() && 0 <= c < places.len() ==> #[trigger] part.at(r, c) == self.at(
                places[r] as int,
                places[c] as int,
            )
    }

    /// A square matrix of zeros.
    pub fn zero(n: usize) -> (matrix: DenseMatrix)
        requires
            n * n <= usize::MAX,
        ensures
            matrix.is_zero(n as int),
    {
        let count: usize = n * n;
        let mut entries: Vec<Scalar> = Vec::new();
        while entries.len() < count
            invariant
                entries.len() <= count,
                forall|k: int| 0 <= k < entries.len() ==> #[trigger] entries[k] == Scalar::zero(),
            decreases count - entries.len(),
        {
            entries.push(Scalar::zero());
        }
        let matrix = DenseMatrix { rows: n, columns: n, entries };
        assert forall|row: int, column: int| 0 <= row < n && 0 <= column < n implies #[trigger]
            matrix.at(row, column) == Scalar::zero() by {
            lemma_place_in_range(row, column, n as int, n as int);
        }
        matrix
    }

    /// A copy.
    pub fn copy(&self) -> (matrix: DenseMatrix)
        ensures
            matrix.same(*self),
    {
        DenseMatrix { rows: self.rows, columns: self.columns, entries: copy_entries(&self.entries) }
    }

    /// The entry of a row and a column.
    pub fn get(&self, row: usize, column: usize) -> (entry: Scalar)
        requires
            self.wf(),
            row < self.rows,
            column < self.columns,
        ensures
            entry == self.at(row as int, column as int),
    {
        proof {
            lemma_place_in_range(
                row as int,
                column as int,
                self.rows as int,
                self.columns as int,
            );
        }
        self.entries[row * self.columns + column]
    }

    /// The rows and columns at the given places.
    pub fn part(&self, places: &Vec<usize>) -> (part: DenseMatrix)
        requires
            self.is_square(self.rows as int),
            are_places(places@, self.rows as int),
            places.len() * places.len() <= usize::MAX,
        ensures
            self.has_part(places@, part),
    {
        let n: usize = places.len();
        let mut entries: Vec<Scalar> = Vec::new();
        let mut r: usize = 0;
        while r < n
            invariant
                r <= n,
                n == places.len(),
                n * n <= usize::MAX,
                self.is_square(self.rows as int),
                are_places(places@, self.rows as int),
                entries.len() == r * n,
                forall|i: int, j: int|
                    0 <= i < r && 0 <= j < n ==> #[trigger] entry_of(entries@, n as int, i, j)
                        == self.at(places[i] as int, places[j] as int),
            decreases n - r,
        {
            let mut c: usize = 0;
            while c < n
                invariant
                    c <= n,
                    r < n,
                    n == places.len(),
                    n * n <= usize::MAX,
                    self.is_square(self.rows as int),
                    are_places(places@, self.rows as int),
                    entries.len() == r * n + c,
                    forall|i: int, j: int|
                        0 <= j < n && (0 <= i < r || (i == r && j < c)) ==> #[trigger] entry_of(
                            entries@,
                            n as int,
                            i,
                            j,
                        ) == self.at(places[i] as int, places[j] as int),
                decreases n - c,
            {
                let ghost before = entries@;
                let entry = self.get(places[r], places[c]);
                entries.push(entry);
                proof {
                    assert forall|i: int, j: int|
                        0 <= j < n && (0 <= i < r || (i == r && j < c + 1)) implies #[trigger] entry_of(
                        entries@,
                        n as int,
                        i,
                        j,
                    ) == self.at(places[i] as int, places[j] as int) by {
                        if i < r {
                            lemma_earlier_row(i, j, r as int, n as int);
                            assert(entry_of(entries@, n as int, i, j) == entry_of(
                                before,
                                n as int,
                                i,
                                j,
                            ));
                        } else if j < c {
                            assert(entry_of(entries@, n as int, i, j) == entry_of(
                                before,
                                n as int,
                                i,
                                j,
                            ));
                        }
                    }
                }
                c += 1;
            }
            assert(r * n + n == (r + 1) * n) by (nonlinear_arith);
            r += 1;
        }
        let part = DenseMatrix { rows: n, columns: n, entries };
        assert forall|i: int, j: int| 0 <= i < n && 0 <= j < n implies #[trigger] part.at(i, j)
            == self.at(places[i] as int, places[j] as int) by {
            assert(entry_of(entries@, n as int, i, j) == part.at(i, j));
        }
        part
    }

    /// The matrix with the entries of another one added at the given places; `accumulate` adds a
    /// multiple of a number to a sum.
    pub fn plus_at<A>(&self, places: &Vec<usize>, other: &DenseMatrix, factor: i128, accumulate: &A) -> (sum:
        DenseMatrix) where A: Fn(Scalar, Scalar, i128) -> Scalar
        requires
            self.is_square(self.rows as int),
            are_places(places@, self.rows as int),
            other.is_square(places.len() as int),
            forall|total: Scalar, value: Scalar, times: i128|
                call_requires(*accumulate, (total, value, times)),
        ensures
            is_sum_at(*self, places@, *other, factor, *accumulate, sum),
    {
        let n: usize = places.len();
        let size: usize = self.rows;
        let mut entries = copy_entries(&self.entries);
        let ghost size_int = size as int;
        let mut r: usize = 0;
        while r < n
            invariant
                r <= n,
                n == places.len(),
                size == self.rows,
                size_int == size,
                self.is_square(size_int),
                are_places(places@, size_int),
                other.is_square(n as int),
                forall|total: Scalar, value: Scalar, times: i128|
                    call_requires(*accumulate, (total, value, times)),
                entries.len() == self.entries.len(),
                forall|p: int, q: int|
                    0 <= p < size && 0 <= q < size && !(places@.contains(p as usize)
                        && places@.contains(q as usize)) ==> #[trigger] entry_of(
                        entries@,
                        size_int,
                        p,
                        q,
                    ) == self.at(p, q),
                forall|i: int, j: int|
                    0 <= i < r && 0 <= j < n ==> #[trigger] was_added(
                        *self,
                        places@,
                        *other,
                        factor,
                        *accumulate,
                        entries@,
                        i,
                        j,
                    ),
            decreases n - r,
        {
            let mut c: usize = 0;
            while c < n
                invariant
                    c <= n,
                    r < n,
                    n == places.len(),
                    size == self.rows,
                    size_int == size,
                    self.is_square(size_int),
                    are_places(places@, size_int),
                    other.is_square(n as int),
                    forall|total: Scalar, value: Scalar, times: i128|
                        call_requires(*accumulate, (total, value, times)),
                    entries.len() == self.entries.len(),
                    forall|p: int, q: int|
                        0 <= p < size && 0 <= q < size && !(places@.contains(p as usize)
                            && places@.contains(q as usize)) ==> #[trigger] entry_of(
                            entries@,
                            size_int,
                            p,
                            q,
                        ) == self.at(p, q),
                    forall|i: int, j: int|
                        0 <= j < n && (0 <= i < r || (i == r && j < c)) ==> #[trigger] was_added(
                            *self,
                            places@,
                            *other,
                            factor,
                            *accumulate,
                            entries@,
                            i,
                            j,
                        ),
                decreases n - c,
            {
                let row: usize = places[r];
                let column: usize = places[c];
                let total = self.get(row, column);
                let value = other.get(r, c);
                let after = accumulate(total, value, factor);
                proof {
                    lemma_place_in_range(row as int, column as int, size_int, size_int);
                }
                let ghost before = entries@;
                entries.set(row * size + column, after);
                proof {
                    assert forall|p: int, q: int|
                        0 <= p < size && 0 <= q < size && !(p == row && q
                            == column) implies #[trigger] entry_of(entries@, size_int, p, q)
                        == entry_of(before, size_int, p, q) by {
                        lemma_place_in_range(p, q, size_int, size_int);
                        if p * size + q == row * size + column {
                            lemma_places_differ(p, q, row as int, column as int, size_int);
                        }
                    }
                    assert forall|p: int, q: int|
                        0 <= p < size && 0 <= q < size && !(places@.contains(p as usize)
                            && places@.contains(q as usize)) implies #[trigger] entry_of(
                        entries@,
                        size_int,
                        p,
                        q,
                    ) == self.at(p, q) by {
                        assert(places@.contains(places@[r as int]));
                        assert(places@.contains(places@[c as int]));
                        assert(entry_of(before, size_int, p, q) == self.at(p, q));
                    }
                    assert forall|i: int, j: int|
                        0 <= j < n && (0 <= i < r || (i == r && j < c
                            + 1)) implies #[trigger] was_added(
                        *self,
                        places@,
                        *other,
                        factor,
                        *accumulate,
                        entries@,
                        i,
                        j,
                    ) by {
                        if i < r || j < c {
                            assert(was_added(
                                *self,
                                places@,
                                *other,
                                factor,
                                *accumulate,
                                before,
                                i,
                                j,
                            ));
                            let p = places@[i] as int;
                            let q = places@[j] as int;
                            assert(!(p == row && q == column));
                            assert(entry_of(entries@, size_int, p, q) == entry_of(
                                before,
                                size_int,
                                p,
                                q,
                            ));
                        } else {
                            assert(entry_of(entries@, size_int, row as int, column as int)
                                == after);
                        }
                    }
                }
                c += 1;
            }
            r += 1;
        }
        let sum = DenseMatrix { rows: size, columns: size, entries };
        assert forall|i: int, j: int| 0 <= i < n && 0 <= j < n implies #[trigger] was_added(
            *self,
            places@,
            *other,
            factor,
            *accumulate,
            sum.entries@,
            i,
            j,
        ) by {}
        assert forall|p: int, q: int|
            0 <= p < size && 0 <= q < size && !(places@.contains(p as usize) && places@.contains(
                q as usize,
            )) implies #[trigger] sum.at(p, q) == self.at(p, q) by {
            assert(entry_of(entries@, size_int, p, q) == self.at(p, q));
        }
        sum
    }

    /// Every entry paired with its mirror image across the diagonal; `balance` makes one
    /// number of the two.
    pub fn balanced<B>(&self, balance: &B) -> (matrix: DenseMatrix) where
        B: Fn(Scalar, Scalar) -> Scalar,

        requires
            self.is_square(self.rows as int),
            forall|one: Scalar, other: Scalar| call_requires(*balance, (one, other)),
        ensures
            is_balanced(*self, *balance, matrix),
    {
        let n: usize = self.rows;
        let mut entries: Vec<Scalar> = Vec::new();
        let mut r: usize = 0;
        while r < n
            invariant
                r <= n,
                n == self.rows,
                self.is_square(n as int),
                forall|one: Scalar, other: Scalar| call_requires(*balance, (one, other)),
                entries.len() == r * n,
                forall|i: int, j: int|
                    0 <= i < r && 0 <= j < n ==> call_ensures(
                        *balance,
                        (self.at(i, j), self.at(j, i)),
                        #[trigger] entry_of(entries@, n as int, i, j),
                    ),
            decreases n - r,
        {
            let mut c: usize = 0;
            while c < n
                invariant
                    c <= n,
                    r < n,
                    n == self.rows,
                    self.is_square(n as int),
                    forall|one: Scalar, other: Scalar| call_requires(*balance, (one, other)),
                    entries.len() == r * n + c,
                    forall|i: int, j: int|
                        0 <= j < n && (0 <= i < r || (i == r && j < c)) ==> call_ensures(
                            *balance,
                            (self.at(i, j), self.at(j, i)),
                            #[trigger] entry_of(entries@, n as int, i, j),
                        ),
                decreases n - c,
            {
                let ghost before = entries@;
                let entry = balance(self.get(r, c), self.get(c, r));
                entries.push(entry);
                proof {
                    assert forall|i: int, j: int|
                        0 <= j < n && (0 <= i < r || (i == r && j < c + 1)) implies call_ensures(
                        *balance,
                        (self.at(i, j), self.at(j, i)),
                        #[trigger] entry_of(entries@, n as int, i, j),
                    ) by {
                        if i < r {
                            lemma_earlier_row(i, j, r as int, n as int);
                        }
                        if i < r || j < c {
                            assert(entry_of(entries@, n as int, i, j) == entry_of(
                                before,
                                n as int,
                                i,
                                j,
                            ));
                        }
                    }
                }
                c += 1;
            }
            assert(r * n + n == (r + 1) * n) by (nonlinear_arith);
            r += 1;
        }
        let matrix = DenseMatrix { rows: n, columns: n, entries };
        assert forall|i: int, j: int| 0 <= i < n && 0 <= j < n implies call_ensures(
            *balance,
            (self.at(i, j), self.at(j, i)),
            #[trigger] matrix.at(i, j),
        ) by {
            assert(entry_of(entries@, n as int, i, j) == matrix.at(i, j));
        }
        matrix
    }
}

/// The entry of a row and a column of a list by rows.
pub open spec fn entry_of(entries: Seq<Scalar>, columns: int, row: int, column: int) -> Scalar {
    entries[row * columns + column]
}

/// The entry that row `i` and column `j` of the other matrix were added to.
pub open spec fn was_added<A>(
    before: DenseMatrix,
    places: Seq<usize>,
    other: DenseMatrix,
    factor: i128,
    accumulate: A,
    entries: Seq<Scalar>,
    i: int,
    j: int,
) -> bool where A: Fn(Scalar, Scalar, i128) -> Scalar {
    call_ensures(
        accumulate,
        (before.at(places[i] as int, places[j] as int), other.at(i, j), factor),
        entry_of(entries, before.columns as int, places[i] as int, places[j] as int),
    )
}

/// `sum` is a matrix with a multiple of another one added at some places, and nothing changed
/// elsewhere.
pub open spec fn is_sum_at<A>(
    before: DenseMatrix,
    places: Seq<usize>,
    other: DenseMatrix,
    factor: i128,
    accumulate: A,
    sum: DenseMatrix,
) -> bool where A: Fn(Scalar, Scalar, i128) -> Scalar {
    &&& sum.is_square(before.rows as int)
    &&& forall|i: int, j: int|
        0 <= i < places.len() && 0 <= j < places.len() ==> #[trigger] was_added(
            before,
            places,
            other,
            factor,
            accumulate,
            sum.entries@,
            i,
            j,
        )
    &&& forall|p: int, q: int|
        0 <= p < before.rows && 0 <= q < before.rows && !(places.contains(p as usize)
            && places.contains(q as usize)) ==> #[trigger] sum.at(p, q) == before.at(p, q)
}

/// Every entry of `after` is made of one of `before` and its mirror image.
pub open spec fn is_balanced<B>(before: DenseMatrix, balance: B, after: DenseMatrix) -> bool where
    B: Fn(Scalar, Scalar) -> Scalar,
 {
    &&& after.is_square(before.rows as int)
    &&& forall|i: int, j: int|
        0 <= i < before.rows && 0 <= j < before.rows ==> call_ensures(
            balance,
            (before.at(i, j), before.at(j, i)),
            #[trigger] after.at(i, j),
        )
}

/// Copies a list of numbers.
pub fn copy_entries(values: &Vec<Scalar>) -> (copy: Vec<Scalar>)
    ensures
        copy@ == values@,
{
    let mut copy: Vec<Scalar> = Vec::new();
    let mut k: usize = 0;
    while k < values.len()
        invariant
            k <= values.len(),
            copy@ == values@.take(k as int),
        decreases values.len() - k,
    {
        copy.push(values[k]);
        k += 1;
        assert(values@.take(k as int) =~= values@.take(k - 1).push(values[k - 1]));
    }
    assert(values@.take(values.len() as int) =~= values@);
    copy
}

proof fn lemma_place_in_range(row: int, column: int, rows: int, columns: int)
    requires
        0 <= row < rows,
        0 <= column < columns,
    ensures
        0 <= row * columns <= row * columns + column < rows * columns,
{
    assert(0 <= row * columns) by (nonlinear_arith)
        requires
            0 <= row,
            0 <= columns,
    ;
    assert(row * columns + columns <= rows * columns) by (nonlinear_arith)
        requires
            row + 1 <= rows,
            0 <= columns,
    ;
}

proof fn lemma_earlier_row(row: int, column: int, later: int, columns: int)
    requires
        0 <= row < later,
        0 <= column < columns,
    ensures
        0 <= row * columns + column < later * columns,
{
    lemma_place_in_range(row, column, later, columns);
}

proof fn lemma_places_differ(p: int, q: int, row: int, column: int, n: int)
    requires
        0 <= q < n,
        0 <= column < n,
        p * n + q == row * n + column,
    ensures
        p == row,
        q == column,
{
    assert(p == row) by (nonlinear_arith)
        requires
            0 <= q < n,
            0 <= column < n,
            p * n + q == row * n + column,
    ;
}

impl DenseMatrix {
    /// Entries are kept row by row.
    pub proof fn entries_are_kept_row_by_row(self, row: int, column: int)
        requires
            self.wf(),
            0 <= row < self.rows,
            0 <= column < self.columns,
        ensures
            0 <= row * self.columns + column < self.entries@.len(),
            self.at(row, column) == self.entries@[row * self.columns + column],
    {
        assert(0 <= row * self.columns + column < self.rows * self.columns) by (nonlinear_arith)
            requires
                0 <= row < self.rows,
                0 <= column < self.columns,
        ;
    }
}

/// What is added at places: each entry whose row and column are among the places takes the
/// entry of the other matrix there, as often as the factor says; every other entry stays.
pub proof fn sums_change_only_their_places<A>(
    before: DenseMatrix,
    places: Seq<usize>,
    other: DenseMatrix,
    factor: i128,
    accumulate: A,
    sum: DenseMatrix,
    i: int,
    j: int,
    p: int,
    q: int,
) where A: Fn(Scalar, Scalar, i128) -> Scalar
    requires
        is_sum_at(before, places, other, factor, accumulate, sum),
        before.columns == before.rows,
        0 <= i < places.len(),
        0 <= j < places.len(),
        0 <= p < before.rows,
        0 <= q < before.rows,
    ensures
        sum.rows == before.rows,
        sum.columns == before.rows,
        call_ensures(
            accumulate,
            (before.at(places[i] as int, places[j] as int), other.at(i, j), factor),
            sum.at(places[i] as int, places[j] as int),
        ),
        !places.contains(p as usize) || !places.contains(q as usize) ==> sum.at(p, q) == before.at(
            p,
            q,
        ),
{
    assert(was_added(before, places, other, factor, accumulate, sum.entries@, i, j));
    let kept = sum.at(p, q);
}

} // verus!
