//! Query results held column by column: each column is the msgpack
//! encoding of its values.
use vstd::prelude::*;

use std::rc::Rc;

verus! {

/// Shares the column names of a result.
///
/// Trusted: calls std's `Rc::clone`, which hands out another pointer to
/// the same value; the contract claims that the value is the same.
#[verifier::external_body]
fn share_columns(columns: &Rc<Vec<String>>) -> (r: Rc<Vec<String>>)
    ensures
        r == *columns,
{
    Rc::clone(columns)
}

/// Rows of a query result, column by column.
#[derive(Debug, PartialEq, Eq)]
pub struct Records {
    col_buf: Vec<Vec<u8>>,
    n_rows: i64,
    columns: Rc<Vec<String>>,
}

impl Records {
    pub closed spec fn spec_col_buf(&self) -> Seq<Vec<u8>> {
        self.col_buf@
    }

    pub closed spec fn spec_n_rows(&self) -> i64 {
        self.n_rows
    }

    pub closed spec fn spec_columns(&self) -> Rc<Vec<String>> {
        self.columns
    }

    pub fn new(col_buf: Vec<Vec<u8>>, n_rows: i64, columns: Rc<Vec<String>>) -> (r: Self)
        ensures
            r.spec_col_buf() == col_buf@,
            r.spec_n_rows() == n_rows,
            r.spec_columns() == columns,
    {
        Records { col_buf, n_rows, columns }
    }

    /// The encoded values of each column.
    pub fn col_buf(&self) -> (r: &[Vec<u8>])
        ensures
            r@ == self.spec_col_buf(),
    {
        self.col_buf.as_slice()
    }

    /// The number of rows.
    pub fn n_rows(&self) -> (r: i64)
        ensures
            r == self.spec_n_rows(),
    {
        self.n_rows
    }

    /// The names of the columns.
    pub fn columns(&self) -> (r: Rc<Vec<String>>)
        ensures
            r == self.spec_columns(),
    {
        share_columns(&self.columns)
    }
}

/// Collects the values of a result column by column.
pub struct ColumnarBuffer {
    /// column index -> a msgpack containing all the values in the column
    columns: Vec<Vec<u8>>,
}

impl View for ColumnarBuffer {
    type V = Seq<Seq<u8>>;

    closed spec fn view(&self) -> Seq<Seq<u8>> {
        self.columns@.map_values(|c: Vec<u8>| c@)
    }
}

/// `cols` cut or extended with empty columns to length `n`.
pub open spec fn resized(cols: Seq<Seq<u8>>, n: nat) -> Seq<Seq<u8>> {
    if n <= cols.len() {
        cols.subrange(0, n as int)
    } else {
        cols + Seq::new((n - cols.len()) as nat, |i: int| Seq::<u8>::empty())
    }
}

/// `cols` with `cells` appended as a row: cell `i` at the end of column
/// `i`, with empty columns added up to the last cell.
pub open spec fn row_appended(cols: Seq<Seq<u8>>, cells: Seq<Seq<u8>>) -> Seq<Seq<u8>> {
    let n = if cells.len() <= cols.len() {
        cols.len()
    } else {
        cells.len()
    };
    Seq::new(
        n,
        |i: int|
            (if i < cols.len() {
                cols[i]
            } else {
                Seq::<u8>::empty()
            }) + (if i < cells.len() {
                cells[i]
            } else {
                Seq::<u8>::empty()
            }),
    )
}

impl Default for ColumnarBuffer {
    fn default() -> (r: Self)
        ensures
            r@ == Seq::<Seq<u8>>::empty(),
    {
        let r = ColumnarBuffer { columns: Vec::new() };
        proof {
            assert(r@ =~= Seq::<Seq<u8>>::empty());
        }
        r
    }
}

impl ColumnarBuffer {
    /// Appends empty columns until there are at least `n`.
    fn grow_to(&mut self, n: usize)
        ensures
            final(self)@ == if n <= old(self)@.len() {
                old(self)@
            } else {
                resized(old(self)@, n as nat)
            },
    {
        let ghost start = self@;
        while self.columns.len() < n
            invariant
                start.len() <= n ==> self@ == start + Seq::new(
                    (self@.len() - start.len()) as nat,
                    |i: int| Seq::<u8>::empty(),
                ),
                start.len() <= n ==> self@.len() <= n,
                start.len() > n ==> self@ == start,
                self@.len() >= start.len(),
            decreases n - self.columns@.len(),
        {
            let ghost before = self@;
            self.columns.push(Vec::new());
            proof {
                assert(self@ =~= before.push(Seq::<u8>::empty()));
                assert(start + Seq::new((self@.len() - start.len()) as nat, |i: int| Seq::<u8>::empty())
                    =~= (start + Seq::new(
                    (self@.len() - 1 - start.len()) as nat,
                    |i: int| Seq::<u8>::empty(),
                )).push(Seq::<u8>::empty()));
            }
        }
    }

    /// The buffer of column `col_index`, adding empty columns up to it.
    pub fn get_column(&mut self, col_index: usize) -> (r: &mut Vec<u8>)
        requires
            col_index < usize::MAX,
        ensures
            r@ == (if col_index < old(self)@.len() {
                old(self)@[col_index as int]
            } else {
                Seq::<u8>::empty()
            }),
            final(self)@ == (if col_index < old(self)@.len() {
                old(self)@
            } else {
                resized(old(self)@, (col_index + 1) as nat)
            }).update(col_index as int, final(r)@),
    {
        self.grow_to(col_index + 1);
        proof {
            assert(self@.len() >= col_index + 1);
            assert(self@.len() == self.columns@.len());
            assert(self.columns@[col_index as int]@ == self@[col_index as int]);
        }
        let r = &mut self.columns[col_index];
        r
    }

    /// Appends a row: cell `i` of `cells` goes at the end of column `i`,
    /// adding empty columns up to the last cell (see [`row_appended`]).
    pub fn append_row(&mut self, cells: &Vec<Vec<u8>>)
        ensures
            final(self)@ == row_appended(old(self)@, cells@.map_values(|c: Vec<u8>| c@)),
    {
        let ghost cs = cells@.map_values(|c: Vec<u8>| c@);
        let ghost start = self@;
        self.grow_to(cells.len());
        let ghost grown = self@;
        let mut i: usize = 0;
        while i < cells.len()
            invariant
                i <= cells@.len(),
                cs == cells@.map_values(|c: Vec<u8>| c@),
                grown == (if cells@.len() <= start.len() {
                    start
                } else {
                    resized(start, cells@.len() as nat)
                }),
                self@.len() == grown.len(),
                self@.len() == self.columns@.len(),
                forall|k: int| 0 <= k < i ==> #[trigger] self@[k] == grown[k] + cs[k],
                forall|k: int| i <= k < self@.len() ==> #[trigger] self@[k] == grown[k],
            decreases cells@.len() - i,
        {
            let ghost before = self@;
            let ghost cols_before = self.columns@;
            let mut col = self.columns[i].clone();
            let mut add = cells[i].clone();
            proof {
                assert(col@ == cols_before[i as int]@);
                assert(cols_before[i as int]@ == before[i as int]);
                assert(add@ == cs[i as int]);
            }
            col.append(&mut add);
            let ghost new_col = col@;
            self.columns.set(i, col);
            proof {
                assert(new_col == grown[i as int] + cs[i as int]);
                assert(self.columns@ == cols_before.update(i as int, self.columns@[i as int]));
                assert forall|k: int| 0 <= k < self@.len() implies #[trigger] self@[k] == before.update(
                    i as int,
                    grown[i as int] + cs[i as int],
                )[k] by {
                    if k != i {
                        assert(self.columns@[k] == cols_before[k]);
                    }
                }
                assert(self@ =~= before.update(i as int, grown[i as int] + cs[i as int]));
            }
            i = i + 1;
        }
        proof {
            assert(self@ =~= row_appended(start, cs));
        }
    }

    /// The columns, cut or extended with empty columns to `len`.
    pub fn finish(self, len: usize) -> (r: Vec<Vec<u8>>)
        ensures
            r@.map_values(|c: Vec<u8>| c@) == resized(self@, len as nat),
    {
        let mut b = self;
        b.columns.truncate(len);
        b.grow_to(len);
        proof {
            assert(b@ =~= resized(self@, len as nat));
        }
        b.columns
    }
}

} // verus!
