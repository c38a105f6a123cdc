//! The cache of paged query results: rows of `... LIMIT ? OFFSET ?` queries
//! kept by offset (each as the msgpack of its cells), read back column by
//! column when a page lies wholly in the cache; entries evicted least
//! recently used first; and the decisions around a paged query (which
//! queries are paged, the margins fetched around a page, the rows fetched
//! backwards).
use vstd::prelude::*;

use std::collections::HashMap;
use std::rc::Rc;

use crate::records::{ColumnarBuffer, Records, row_appended};
use crate::text::{chars_eq, str_chars};

verus! {

broadcast use vstd::std_specs::hash::group_hash_axioms;

// ---------------------------------------------------------------------------
// Parameters
// ---------------------------------------------------------------------------

/// A parameter of a paged query, as the cache compares it (a real number
/// by the bits of its `f64`).
#[derive(Clone, Debug, Eq, PartialEq)]
pub enum CacheParam {
    I64(i64),
    F64Bits(u64),
    Bool(bool),
    Blob(Vec<u8>),
    String(String),
    Nil,
}

pub enum CacheParamView {
    I64(i64),
    F64Bits(u64),
    Bool(bool),
    Blob(Seq<u8>),
    String(Seq<char>),
    Nil,
}

impl View for CacheParam {
    type V = CacheParamView;

    open spec fn view(&self) -> CacheParamView {
        match self {
            CacheParam::I64(v) => CacheParamView::I64(*v),
            CacheParam::F64Bits(v) => CacheParamView::F64Bits(*v),
            CacheParam::Bool(v) => CacheParamView::Bool(*v),
            CacheParam::Blob(v) => CacheParamView::Blob(v@),
            CacheParam::String(v) => CacheParamView::String(v@),
            CacheParam::Nil => CacheParamView::Nil,
        }
    }
}

pub open spec fn param_views(v: Seq<CacheParam>) -> Seq<CacheParamView> {
    v.map_values(|p: CacheParam| p@)
}

fn bytes_eq(a: &Vec<u8>, b: &Vec<u8>) -> (r: bool)
    ensures
        r == (a@ == b@),
{
    if a.len() != b.len() {
        return false;
    }
    let mut i: usize = 0;
    while i < a.len()
        invariant
            i <= a@.len(),
            a@.len() == b@.len(),
            forall|k: int| 0 <= k < i ==> a@[k] == b@[k],
        decreases a@.len() - i,
    {
        if a[i] != b[i] {
            return false;
        }
        i = i + 1;
    }
    proof {
        assert(a@ =~= b@);
    }
    true
}

fn param_eq(a: &CacheParam, b: &CacheParam) -> (r: bool)
    ensures
        r == (a@ == b@),
{
    match (a, b) {
        (CacheParam::I64(x), CacheParam::I64(y)) => *x == *y,
        (CacheParam::F64Bits(x), CacheParam::F64Bits(y)) => *x == *y,
        (CacheParam::Bool(x), CacheParam::Bool(y)) => *x == *y,
        (CacheParam::Blob(x), CacheParam::Blob(y)) => bytes_eq(x, y),
        (CacheParam::String(x), CacheParam::String(y)) => chars_eq(&str_chars(x.as_str()), &str_chars(y.as_str())),
        (CacheParam::Nil, CacheParam::Nil) => true,
        _ => false,
    }
}

/// Whether two lists of parameters are the same.
pub fn params_eq(a: &[CacheParam], b: &[CacheParam]) -> (r: bool)
    ensures
        r == (param_views(a@) == param_views(b@)),
{
    if a.len() != b.len() {
        proof {
            assert(param_views(a@).len() != param_views(b@).len());
        }
        return false;
    }
    let mut i: usize = 0;
    while i < a.len()
        invariant
            i <= a@.len(),
            a@.len() == b@.len(),
            forall|k: int| 0 <= k < i ==> param_views(a@)[k] == param_views(b@)[k],
        decreases a@.len() - i,
    {
        if !param_eq(&a[i], &b[i]) {
            proof {
                assert(param_views(a@)[i as int] != param_views(b@)[i as int]);
            }
            return false;
        }
        i = i + 1;
    }
    proof {
        assert(param_views(a@) =~= param_views(b@));
    }
    true
}

// ---------------------------------------------------------------------------
// Rows as msgpack
// ---------------------------------------------------------------------------

pub open spec fn cell_views(v: Seq<Vec<u8>>) -> Seq<Seq<u8>> {
    v.map_values(|c: Vec<u8>| c@)
}

/// The msgpack that rmp_serde writes for a row of cells (each cell the
/// msgpack of its value).
pub uninterp spec fn msgpack_of_cells(cells: Seq<Seq<u8>>) -> Seq<u8>;

/// The row of cells that rmp_serde reads from `bytes`, if it can.
pub uninterp spec fn cells_of_msgpack(bytes: Seq<u8>) -> Option<Seq<Seq<u8>>>;

/// A row of cells that rmp_serde can write as msgpack arrays: the row and
/// each of its cells have at most `u32::MAX` items, so that their lengths
/// (which rmp_serde casts to `u32`) are written as they are.
pub open spec fn row_encodable(cells: Seq<Seq<u8>>) -> bool {
    &&& cells.len() <= u32::MAX
    &&& forall|k: int| 0 <= k < cells.len() ==> (#[trigger] cells[k]).len() <= u32::MAX
}

/// Encodes a row of cells with `rmp_serde::encode::to_vec`.
///
/// Trusted: the bytes are the named function `msgpack_of_cells` of the
/// row, and `rmp_serde::decode::from_slice` reads the same row back from
/// them. rmp_serde writes a `Vec<Vec<u8>>` as an array of arrays of
/// unsigned integers (`serialize_seq`, `serialize_u8`); writing into a
/// `Vec` does not fail, so `to_vec` gives `Ok` for every row whose lengths
/// fit in `u32` (the lengths are cast with `as u32`).
#[verifier::external_body]
fn encode_cells(cells: &Vec<Vec<u8>>) -> (r: Vec<u8>)
    requires
        row_encodable(cell_views(cells@)),
    ensures
        r@ == msgpack_of_cells(cell_views(cells@)),
        cells_of_msgpack(r@) == Some(cell_views(cells@)),
{
    rmp_serde::encode::to_vec(cells).unwrap_or_default()
}

/// `a + b`, saturated at `u64::MAX`.
pub open spec fn saturated(a: int, b: int) -> u64 {
    if a + b <= u64::MAX {
        (a + b) as u64
    } else {
        u64::MAX
    }
}

/// The size an entry counts for a cached row whose msgpack has `len`
/// bytes: the row's `Vec<u8>` and its bytes, added to `total` (saturated).
pub open spec fn size_with_row(total: u64, len: nat) -> u64 {
    saturated(saturated(total as int, vstd::layout::size_of::<Vec<u8>>() as int) as int, len as int)
}

/// Decodes a row of cells with `rmp_serde::decode::from_slice`.
///
/// Trusted: the result is the named function `cells_of_msgpack` of the
/// bytes.
#[verifier::external_body]
fn decode_cells(bytes: &Vec<u8>) -> (r: Option<Vec<Vec<u8>>>)
    ensures
        r matches Some(c) ==> cells_of_msgpack(bytes@) == Some(cell_views(c@)),
        r is None ==> cells_of_msgpack(bytes@) is None,
{
    rmp_serde::decode::from_slice(bytes.as_slice()).ok()
}

// ---------------------------------------------------------------------------
// An entry of the cache
// ---------------------------------------------------------------------------

/// The rows cached for one query with one list of parameters.
pub struct PagerCacheEntry {
    query: String,
    params: Vec<CacheParam>,
    /// offset -> the msgpack of the row's cells
    records: HashMap<u64, Vec<u8>>,
    columns: Option<Rc<Vec<String>>>,
    /// The number of rows of the query without `LIMIT` and `OFFSET`, once known.
    num_records: Option<u64>,
    /// When the entry was last used, on the cache's clock.
    last_accessed: u64,
    /// The approximate size of the entry in bytes.
    total_size_bytes: u64,
}

pub struct EntryView {
    pub query: Seq<char>,
    pub params: Seq<CacheParamView>,
    pub records: Map<u64, Seq<u8>>,
    pub columns: Option<Rc<Vec<String>>>,
    pub num_records: Option<u64>,
    pub last_accessed: u64,
    pub total_size_bytes: u64,
}

impl View for PagerCacheEntry {
    type V = EntryView;

    closed spec fn view(&self) -> EntryView {
        EntryView {
            query: self.query@,
            params: param_views(self.params@),
            records: self.records@.map_values(|b: Vec<u8>| b@),
            columns: self.columns,
            num_records: self.num_records,
            last_accessed: self.last_accessed,
            total_size_bytes: self.total_size_bytes,
        }
    }
}

/// The number of columns of an entry whose columns are known.
pub open spec fn column_count(e: EntryView) -> nat {
    match e.columns {
        Some(c) => c@.len(),
        None => 0,
    }
}

/// Every cached row can be read back as a row of cells.
pub open spec fn entry_wf(e: EntryView) -> bool {
    forall|k: u64| #[trigger] e.records.contains_key(k) ==> cells_of_msgpack(e.records[k]) is Some
}

/// Where a page of `limit` rows from `offset` ends: cut at the number of
/// rows once it is known, but never before `offset`.
pub open spec fn range_end(e: EntryView, offset: u64, limit: u64) -> int {
    match e.num_records {
        Some(n) => {
            let end = if offset + limit <= n {
                offset + limit
            } else {
                n as int
            };
            if end >= offset {
                end
            } else {
                offset as int
            }
        },
        None => offset + limit,
    }
}

/// The page of `limit` rows from `offset` is wholly in the cache, each row
/// with one cell per column.
pub open spec fn has_range_spec(e: EntryView, offset: u64, limit: u64) -> bool {
    &&& e.columns is Some
    &&& forall|row: u64|
        offset <= row < range_end(e, offset, limit) ==> #[trigger] e.records.contains_key(row) && (cells_of_msgpack(
            e.records[row],
        ) matches Some(c) && c.len() == column_count(e))
}

/// The cells of the rows `offset..offset + n` of an entry.
pub open spec fn page_rows(e: EntryView, offset: u64, n: nat) -> Seq<Seq<Seq<u8>>> {
    Seq::new(n, |i: int| cells_of_msgpack(e.records[(offset + i) as u64])->0)
}

/// Cell `c` of each of the first `n` rows, one after another.
pub open spec fn column_concat(rows: Seq<Seq<Seq<u8>>>, c: int, n: nat) -> Seq<u8>
    decreases n,
{
    if n == 0 || n > rows.len() {
        seq![]
    } else {
        column_concat(rows, c, (n - 1) as nat) + rows[n - 1][c]
    }
}

/// The page read back column by column: for each column, its cells of the
/// page's rows one after another.
pub open spec fn page_columns(e: EntryView, offset: u64, limit: u64) -> Seq<Seq<u8>> {
    let n = (range_end(e, offset, limit) - offset) as nat;
    Seq::new(column_count(e), |c: int| column_concat(page_rows(e, offset, n), c, n))
}

/// A page can be asked for without overflow.
pub open spec fn page_in_range(offset: u64, limit: u64) -> bool {
    offset + limit <= u64::MAX && limit <= i64::MAX
}

fn append_bytes(dst: &mut Vec<u8>, src: &Vec<u8>)
    ensures
        final(dst)@ == old(dst)@ + src@,
{
    let mut i: usize = 0;
    while i < src.len()
        invariant
            i <= src@.len(),
            dst@ == old(dst)@ + src@.subrange(0, i as int),
        decreases src@.len() - i,
    {
        dst.push(src[i]);
        i = i + 1;
        proof {
            assert(src@.subrange(0, i as int) =~= src@.subrange(0, i - 1).push(src@[i - 1]));
        }
    }
    proof {
        assert(src@.subrange(0, i as int) =~= src@);
    }
}

fn share(columns: &Rc<Vec<String>>) -> (r: Rc<Vec<String>>)
    ensures
        r == *columns,
{
    columns.clone()
}

impl PagerCacheEntry {
    pub closed spec fn wf(&self) -> bool {
        &&& entry_wf(self@)
        &&& self.columns is Some ==> self.columns->0@.len() < usize::MAX
    }

    /// An entry for `query` with `params` that holds no rows yet.
    pub fn new(query: String, params: Vec<CacheParam>, now: u64) -> (r: Self)
        ensures
            r.wf(),
            r@.query == query@,
            r@.params == param_views(params@),
            r@.records == Map::<u64, Seq<u8>>::empty(),
            r@.columns is None,
            r@.num_records is None,
            r@.last_accessed == now,
    {
        let mut size: u64 = core::mem::size_of::<PagerCacheEntry>() as u64;
        size = size.saturating_add(query.len() as u64);
        let mut i: usize = 0;
        while i < params.len()
            invariant
                i <= params@.len(),
            decreases params@.len() - i,
        {
            size = size.saturating_add(core::mem::size_of::<CacheParam>() as u64);
            match &params[i] {
                CacheParam::Blob(b) => {
                    size = size.saturating_add(b.len() as u64);
                },
                CacheParam::String(s) => {
                    size = size.saturating_add(s.len() as u64);
                },
                _ => {},
            }
            i = i + 1;
        }
        let records: HashMap<u64, Vec<u8>> = HashMap::new();
        let r = PagerCacheEntry {
            query,
            params,
            records,
            columns: None,
            num_records: None,
            last_accessed: now,
            total_size_bytes: size,
        };
        proof {
            assert(r@.records =~= Map::<u64, Seq<u8>>::empty());
        }
        r
    }

    /// Whether this entry is for `query` with `params`.
    pub fn is_for(&self, query: &str, params: &[CacheParam]) -> (r: bool)
        ensures
            r == (self@.query == query@ && self@.params == param_views(params@)),
    {
        chars_eq(&str_chars(self.query.as_str()), &str_chars(query)) && params_eq(self.params.as_slice(), params)
    }

    /// The approximate size of the entry in bytes.
    pub fn total_size_bytes(&self) -> (r: u64)
        ensures
            r == self@.total_size_bytes,
    {
        self.total_size_bytes
    }

    /// When the entry was last used.
    pub fn last_accessed(&self) -> (r: u64)
        ensures
            r == self@.last_accessed,
    {
        self.last_accessed
    }

    /// Marks the entry as used at `now`.
    pub fn update_last_accessed(&mut self, now: u64)
        requires
            old(self).wf(),
        ensures
            final(self).wf(),
            final(self)@ == (EntryView { last_accessed: now, ..old(self)@ }),
    {
        self.last_accessed = now;
    }

    /// Records that the query has `value` rows in all.
    pub fn set_num_records(&mut self, value: u64)
        requires
            old(self).wf(),
        ensures
            final(self).wf(),
            final(self)@ == (EntryView { num_records: Some(value), ..old(self)@ }),
    {
        self.num_records = Some(value);
    }

    /// Records the names of the columns, unless they are known already.
    pub fn set_columns_if_not_set_yet(&mut self, columns: Vec<String>)
        requires
            old(self).wf(),
            columns@.len() < usize::MAX,
        ensures
            final(self).wf(),
            old(self)@.columns is Some ==> final(self)@ == old(self)@,
            old(self)@.columns is None ==> final(self)@.columns == Some(Rc::new(columns)) && final(self)@.records == old(self)@.records && final(self)@.query == old(self)@.query && final(self)@.params == old(self)@.params && final(self)@.num_records == old(self)@.num_records
                && final(self)@.last_accessed == old(self)@.last_accessed,
    {
        if self.columns.is_none() {
            let mut size = self.total_size_bytes;
            let mut i: usize = 0;
            while i < columns.len()
                invariant
                    i <= columns@.len(),
                decreases columns@.len() - i,
            {
                size = size.saturating_add(columns[i].len() as u64);
                i = i + 1;
            }
            self.total_size_bytes = size;
            self.columns = Some(Rc::new(columns));
        }
    }

    /// Caches the row at `offset` (its cells as msgpack), in place of any
    /// row cached there before, and counts its size.
    pub fn insert(&mut self, offset: u64, record: &Vec<Vec<u8>>)
        requires
            old(self).wf(),
            row_encodable(cell_views(record@)),
        ensures
            final(self).wf(),
            final(self)@.records == old(self)@.records.insert(offset, msgpack_of_cells(cell_views(record@))),
            cells_of_msgpack(final(self)@.records[offset]) == Some(cell_views(record@)),
            final(self)@.total_size_bytes == size_with_row(
                old(self)@.total_size_bytes,
                msgpack_of_cells(cell_views(record@)).len(),
            ),
            final(self)@.query == old(self)@.query,
            final(self)@.params == old(self)@.params,
            final(self)@.columns == old(self)@.columns,
            final(self)@.num_records == old(self)@.num_records,
            final(self)@.last_accessed == old(self)@.last_accessed,
    {
        let buf = encode_cells(record);
        self.total_size_bytes = self.total_size_bytes.saturating_add(
            core::mem::size_of::<Vec<u8>>() as u64,
        ).saturating_add(buf.len() as u64);
        let ghost bv = buf@;
        self.records.insert(offset, buf);
        proof {
            assert(self@.records =~= old(self)@.records.insert(offset, bv));
            assert forall|k: u64| #[trigger] self@.records.contains_key(k) implies cells_of_msgpack(
                self@.records[k],
            ) is Some by {
                if k != offset {
                    assert(old(self)@.records.contains_key(k));
                }
            }
        }
    }

    /// Where a page of `limit` rows from `offset` ends (see [`range_end`]).
    pub fn add_limit_to_offset(&self, offset: u64, limit: u64) -> (r: u64)
        requires
            offset + limit <= u64::MAX,
        ensures
            r == range_end(self@, offset, limit),
            offset <= r <= offset + limit,
    {
        match self.num_records {
            Some(n) => {
                let end = if offset + limit <= n {
                    offset + limit
                } else {
                    n
                };
                if end >= offset {
                    end
                } else {
                    offset
                }
            },
            None => offset + limit,
        }
    }

    /// Whether the page of `limit` rows from `offset` is wholly in the cache.
    pub fn has_range(&self, offset: u64, limit: u64) -> (r: bool)
        requires
            page_in_range(offset, limit),
        ensures
            r == has_range_spec(self@, offset, limit),
    {
        let ncols = match &self.columns {
            Some(c) => c.len(),
            None => {
                return false;
            },
        };
        let end = self.add_limit_to_offset(offset, limit);
        let mut row = offset;
        while row < end
            invariant
                offset <= row <= end,
                end == range_end(self@, offset, limit),
                self.columns is Some,
                ncols == column_count(self@),
                forall|k: u64|
                    offset <= k < row ==> #[trigger] self@.records.contains_key(k) && (cells_of_msgpack(
                        self@.records[k],
                    ) matches Some(c) && c.len() == column_count(self@)),
            decreases end - row,
        {
            proof {
                assert(self@.records.dom() =~= self.records@.dom());
            }
            let bytes = match self.records.get(&row) {
                Some(b) => b,
                None => {
                    proof {
                        assert(!self@.records.contains_key(row));
                    }
                    return false;
                },
            };
            proof {
                assert(self@.records.contains_key(row));
                assert(self@.records[row] == bytes@);
            }
            let cells = match decode_cells(bytes) {
                Some(c) => c,
                None => {
                    return false;
                },
            };
            if cells.len() != ncols {
                proof {
                    assert(cells_of_msgpack(self@.records[row]) == Some(cell_views(cells@)));
                    assert(cell_views(cells@).len() == cells@.len());
                }
                return false;
            }
            proof {
                assert(cell_views(cells@).len() == cells@.len());
            }
            row = row + 1;
        }
        true
    }

    /// The page of `limit` rows from `offset`, column by column, if it is
    /// wholly in the cache (see [`page_columns`]).
    pub fn get_range(&self, offset: u64, limit: u64) -> (r: Option<Records>)
        requires
            self.wf(),
            page_in_range(offset, limit),
        ensures
            !has_range_spec(self@, offset, limit) ==> r is None,
            has_range_spec(self@, offset, limit) ==> (r matches Some(rec) && cell_views(rec.spec_col_buf())
                == page_columns(self@, offset, limit) && rec.spec_n_rows() == range_end(self@, offset, limit)
                - offset && Some(rec.spec_columns()) == self@.columns),
    {
        if !self.has_range(offset, limit) {
            return None;
        }
        let columns = match &self.columns {
            Some(c) => share(c),
            None => {
                return None;
            },
        };
        let ncols = columns.len();
        let end = self.add_limit_to_offset(offset, limit);
        let ghost n = (end - offset) as nat;
        let ghost rows_spec = page_rows(self@, offset, n);
        let mut rows: Vec<Vec<Vec<u8>>> = Vec::new();
        let mut row = offset;
        while row < end
            invariant
                offset <= row <= end,
                end == range_end(self@, offset, limit),
                has_range_spec(self@, offset, limit),
                entry_wf(self@),
                n == end - offset,
                rows_spec == page_rows(self@, offset, n),
                ncols == column_count(self@),
                rows@.len() == row - offset,
                forall|i: int| 0 <= i < rows@.len() ==> cell_views(#[trigger] rows@[i]@) == rows_spec[i]
                    && rows@[i]@.len() == ncols,
            decreases end - row,
        {
            proof {
                assert(self@.records.contains_key(row));
                assert(self@.records.dom() =~= self.records@.dom());
            }
            let bytes = match self.records.get(&row) {
                Some(b) => b,
                None => {
                    return None;
                },
            };
            proof {
                assert(self@.records[row] == bytes@);
            }
            let cells = match decode_cells(bytes) {
                Some(c) => c,
                None => {
                    return None;
                },
            };
            proof {
                assert(rows_spec[row - offset] == cells_of_msgpack(self@.records[row])->0);
                assert(cell_views(cells@).len() == cells@.len());
            }
            rows.push(cells);
            row = row + 1;
        }
        let mut col_buf: Vec<Vec<u8>> = Vec::new();
        let nrows = rows.len();
        let mut c: usize = 0;
        while c < ncols
            invariant
                c <= ncols,
                nrows == rows@.len(),
                nrows == n,
                n == end - offset,
                ncols == column_count(self@),
                rows_spec == page_rows(self@, offset, n),
                forall|i: int| 0 <= i < rows@.len() ==> cell_views(#[trigger] rows@[i]@) == rows_spec[i]
                    && rows@[i]@.len() == ncols,
                col_buf@.len() == c,
                forall|k: int| 0 <= k < c ==> (#[trigger] col_buf@[k])@ == column_concat(rows_spec, k, n),
            decreases ncols - c,
        {
            let mut col: Vec<u8> = Vec::new();
            let mut i: usize = 0;
            while i < nrows
                invariant
                    i <= nrows,
                    c < ncols,
                    nrows == rows@.len(),
                    nrows == n,
                    forall|j: int| 0 <= j < rows@.len() ==> cell_views(#[trigger] rows@[j]@) == rows_spec[j]
                        && rows@[j]@.len() == ncols,
                    col@ == column_concat(rows_spec, c as int, i as nat),
                    rows_spec.len() == nrows,
                decreases nrows - i,
            {
                proof {
                    assert(cell_views(rows@[i as int]@)[c as int] == rows@[i as int]@[c as int]@);
                    assert(rows_spec[i as int][c as int] == rows@[i as int]@[c as int]@);
                }
                append_bytes(&mut col, &rows[i][c]);
                i = i + 1;
            }
            col_buf.push(col);
            c = c + 1;
        }
        proof {
            assert(cell_views(col_buf@) =~= page_columns(self@, offset, limit));
        }
        Some(Records::new(col_buf, (end - offset) as i64, columns))
    }
}

// ---------------------------------------------------------------------------
// The cache
// ---------------------------------------------------------------------------

/// The entries of the cache, and a clock that counts the uses of entries.
pub struct PagerCache {
    entries: Vec<PagerCacheEntry>,
    clock: u64,
}

pub struct CacheView {
    pub entries: Seq<EntryView>,
    pub clock: u64,
}

pub open spec fn entry_views(v: Seq<PagerCacheEntry>) -> Seq<EntryView> {
    v.map_values(|e: PagerCacheEntry| e@)
}

impl View for PagerCache {
    type V = CacheView;

    closed spec fn view(&self) -> CacheView {
        CacheView { entries: entry_views(self.entries@), clock: self.clock }
    }
}

/// Entry `e` is for `query` with the parameters `key`.
pub open spec fn entry_is_for(e: EntryView, query: Seq<char>, key: Seq<CacheParamView>) -> bool {
    e.query == query && e.params == key
}

/// The index of the least recently used entry: the first one with the
/// oldest use.
pub open spec fn lru_index(es: Seq<EntryView>) -> int
    recommends
        es.len() > 0,
    decreases es.len(),
{
    if es.len() <= 1 {
        0
    } else {
        let i = lru_index(es.drop_last());
        if es.last().last_accessed < es[i].last_accessed {
            es.len() - 1
        } else {
            i
        }
    }
}

proof fn lemma_lru_index(es: Seq<EntryView>)
    requires
        es.len() > 0,
    ensures
        0 <= lru_index(es) < es.len(),
        forall|j: int| 0 <= j < es.len() ==> es[lru_index(es)].last_accessed <= #[trigger] es[j].last_accessed,
        forall|j: int| 0 <= j < lru_index(es) ==> es[lru_index(es)].last_accessed < #[trigger] es[j].last_accessed,
    decreases es.len(),
{
    if es.len() > 1 {
        let p = es.drop_last();
        lemma_lru_index(p);
        let i = lru_index(p);
        assert(es[i] == p[i]);
        assert forall|j: int| 0 <= j < es.len() - 1 implies #[trigger] es[j] == p[j] by {}
        if es.last().last_accessed < es[i].last_accessed {
            assert forall|j: int| 0 <= j < es.len() implies es[lru_index(es)].last_accessed <= #[trigger] es[j].last_accessed by {
                if j < es.len() - 1 {
                    assert(es[j] == p[j]);
                }
            }
            assert forall|j: int| 0 <= j < lru_index(es) implies es[lru_index(es)].last_accessed < #[trigger] es[j].last_accessed by {
                assert(es[j] == p[j]);
            }
        } else {
            assert forall|j: int| 0 <= j < es.len() implies es[lru_index(es)].last_accessed <= #[trigger] es[j].last_accessed by {
                if j < es.len() - 1 {
                    assert(es[j] == p[j]);
                }
            }
            assert forall|j: int| 0 <= j < lru_index(es) implies es[lru_index(es)].last_accessed < #[trigger] es[j].last_accessed by {
                assert(es[j] == p[j]);
            }
        }
    }
}

/// The total size of the first `n` entries.
pub open spec fn sizes_sum(es: Seq<EntryView>, n: nat) -> int
    decreases n,
{
    if n == 0 || n > es.len() {
        0
    } else {
        sizes_sum(es, (n - 1) as nat) + es[n - 1].total_size_bytes
    }
}

/// The total size of the cache, saturated at `u64::MAX`.
pub open spec fn cache_size(es: Seq<EntryView>) -> u64 {
    if sizes_sum(es, es.len()) <= u64::MAX {
        sizes_sum(es, es.len()) as u64
    } else {
        u64::MAX
    }
}

proof fn lemma_sizes_nonneg(es: Seq<EntryView>, n: nat)
    ensures
        sizes_sum(es, n) >= 0,
    decreases n,
{
    if n > 0 && n <= es.len() {
        lemma_sizes_nonneg(es, (n - 1) as nat);
    }
}

fn copy_bytes(b: &Vec<u8>) -> (r: Vec<u8>)
    ensures
        r@ == b@,
{
    let r = b.clone();
    proof {
        assert(r@ =~= b@);
    }
    r
}

pub(crate) fn copy_param(p: &CacheParam) -> (r: CacheParam)
    ensures
        r@ == p@,
{
    match p {
        CacheParam::I64(v) => CacheParam::I64(*v),
        CacheParam::F64Bits(v) => CacheParam::F64Bits(*v),
        CacheParam::Bool(v) => CacheParam::Bool(*v),
        CacheParam::Blob(b) => CacheParam::Blob(copy_bytes(b)),
        CacheParam::String(s) => CacheParam::String(s.clone()),
        CacheParam::Nil => CacheParam::Nil,
    }
}

/// The first `n` parameters.
fn params_prefix(params: &[CacheParam], n: usize) -> (r: Vec<CacheParam>)
    requires
        n <= params@.len(),
    ensures
        param_views(r@) == param_views(params@).subrange(0, n as int),
{
    let mut r: Vec<CacheParam> = Vec::new();
    let mut i: usize = 0;
    while i < n
        invariant
            i <= n,
            n <= params@.len(),
            param_views(r@) == param_views(params@).subrange(0, i as int),
        decreases n - i,
    {
        let ghost before = param_views(r@);
        r.push(copy_param(&params[i]));
        proof {
            assert(param_views(r@) =~= before.push(params@[i as int]@));
            assert(param_views(params@).subrange(0, i + 1) =~= param_views(params@).subrange(0, i as int).push(
                params@[i as int]@,
            ));
        }
        i = i + 1;
    }
    r
}

impl PagerCache {
    /// Every entry is consistent, and every use was stamped before the
    /// clock's current time (unless the clock has run out).
    pub closed spec fn wf(&self) -> bool {
        &&& forall|i: int| 0 <= i < self.entries@.len() ==> (#[trigger] self.entries@[i]).wf()
        &&& self.clock < u64::MAX ==> forall|i: int|
            0 <= i < self.entries@.len() ==> (#[trigger] self.entries@[i])@.last_accessed < self.clock
    }

    /// An empty cache.
    pub fn new() -> (r: Self)
        ensures
            r.wf(),
            r@.entries == Seq::<EntryView>::empty(),
            r@.clock == 0,
    {
        let r = PagerCache { entries: Vec::new(), clock: 0 };
        proof {
            assert(r@.entries =~= Seq::<EntryView>::empty());
        }
        r
    }

    /// The entry for `query` with `params` but its last two (the page's
    /// `LIMIT` and `OFFSET`), added empty if there is none; the entry is
    /// marked as used now.
    pub fn entry(&mut self, query: &str, params: &[CacheParam]) -> (r: usize)
        requires
            old(self).wf(),
            params@.len() >= 2,
        ensures
            final(self).wf(),
            ({
                let key = param_views(params@).subrange(0, params@.len() - 2);
                let olds = old(self)@.entries;
                let news = final(self)@.entries;
                &&& r < news.len()
                &&& entry_is_for(news[r as int], query@, key)
                &&& news[r as int].last_accessed == old(self)@.clock
                &&& final(self)@.clock == if old(self)@.clock < u64::MAX {
                    (old(self)@.clock + 1) as u64
                } else {
                    old(self)@.clock
                }
                &&& old(self)@.clock < u64::MAX ==> forall|j: int|
                    0 <= j < news.len() && j != r ==> (#[trigger] news[j]).last_accessed < news[r as int].last_accessed
                &&& forall|j: int| 0 <= j < r && j < olds.len() ==> !entry_is_for(#[trigger] olds[j], query@, key)
                &&& r < olds.len() ==> entry_is_for(olds[r as int], query@, key) && news == olds.update(
                    r as int,
                    EntryView { last_accessed: old(self)@.clock, ..olds[r as int] },
                )
                &&& r == olds.len() ==> news.len() == olds.len() + 1 && news.subrange(0, olds.len() as int)
                    == olds && news[r as int].records == Map::<u64, Seq<u8>>::empty()
                    && news[r as int].columns is None && news[r as int].num_records is None
            }),
    {
        let ghost olds = self@.entries;
        let key = params_prefix(params, params.len() - 2);
        let now = self.clock;
        let mut i: usize = 0;
        while i < self.entries.len()
            invariant
                i <= self.entries@.len(),
                self@.entries == olds,
                olds == old(self)@.entries,
                self.wf(),
                self.clock == now,
                now == old(self)@.clock,
                params@.len() >= 2,
                self.entries@.len() == olds.len(),
                param_views(key@) == param_views(params@).subrange(0, params@.len() - 2),
                forall|j: int| 0 <= j < i ==> !entry_is_for(#[trigger] olds[j], query@, param_views(key@)),
            decreases self.entries@.len() - i,
        {
            proof {
                assert(olds[i as int] == self.entries@[i as int]@);
            }
            if self.entries[i].is_for(query, key.as_slice()) {
                let ghost before = self.entries@;
                self.entries[i].update_last_accessed(now);
                if self.clock < u64::MAX {
                    self.clock = self.clock + 1;
                }
                proof {
                    assert(self.entries@ == before.update(i as int, self.entries@[i as int]));
                    assert(self@.entries =~= olds.update(
                        i as int,
                        EntryView { last_accessed: now, ..olds[i as int] },
                    ));
                    assert forall|k: int| 0 <= k < self.entries@.len() implies (#[trigger] self.entries@[k]).wf() by {
                        if k != i {
                            assert(self.entries@[k] == before[k]);
                        }
                    }
                    if self.clock < u64::MAX {
                        assert forall|k: int| 0 <= k < self.entries@.len() implies (#[trigger] self.entries@[k])@.last_accessed
                            < self.clock by {
                            if k != i {
                                assert(self.entries@[k] == before[k]);
                                assert(before[k]@.last_accessed < now);
                            }
                        }
                    }
                }
                return i;
            }
            i = i + 1;
        }
        let e = PagerCacheEntry::new(str_chars_string(query), key, now);
        let ghost before = self.entries@;
        self.entries.push(e);
        if self.clock < u64::MAX {
            self.clock = self.clock + 1;
        }
        proof {
            assert(self@.entries.subrange(0, olds.len() as int) =~= olds);
            assert(self.entries@[i as int] == e);
            assert forall|k: int| 0 <= k < self.entries@.len() implies (#[trigger] self.entries@[k]).wf() by {
                if k < i {
                    assert(self.entries@[k] == before[k]);
                }
            }
            if self.clock < u64::MAX {
                assert forall|k: int| 0 <= k < self.entries@.len() implies (#[trigger] self.entries@[k])@.last_accessed
                    < self.clock by {
                    if k < i {
                        assert(self.entries@[k] == before[k]);
                        assert(before[k]@.last_accessed < now);
                    }
                }
            }
        }
        i
    }

    /// The entry at `i`.
    pub fn get(&self, i: usize) -> (r: &PagerCacheEntry)
        requires
            i < self@.entries.len(),
        ensures
            r@ == self@.entries[i as int],
            self.wf() ==> r.wf(),
    {
        &self.entries[i]
    }

    /// The entry at `i` after its row at `offset` was cached with `cells`:
    /// the row's msgpack in place of any row cached there before, and its
    /// size counted.
    pub open spec fn row_cached(e: EntryView, offset: u64, cells: Seq<Seq<u8>>) -> EntryView {
        EntryView {
            records: e.records.insert(offset, msgpack_of_cells(cells)),
            total_size_bytes: size_with_row(e.total_size_bytes, msgpack_of_cells(cells).len()),
            ..e
        }
    }

    /// Caches the row at `offset` in the entry at `i` (see
    /// [`PagerCacheEntry::insert`]).
    pub fn insert_row(&mut self, i: usize, offset: u64, record: &Vec<Vec<u8>>)
        requires
            old(self).wf(),
            i < old(self)@.entries.len(),
            row_encodable(cell_views(record@)),
        ensures
            final(self).wf(),
            final(self)@.clock == old(self)@.clock,
            final(self)@.entries == old(self)@.entries.update(
                i as int,
                Self::row_cached(old(self)@.entries[i as int], offset, cell_views(record@)),
            ),
            cells_of_msgpack(final(self)@.entries[i as int].records[offset]) == Some(cell_views(record@)),
    {
        let ghost before = self.entries@;
        self.entries[i].insert(offset, record);
        proof {
            assert forall|k: int| 0 <= k < self.entries@.len() implies (#[trigger] self.entries@[k]).wf() by {
                if k != i {
                    assert(self.entries@[k] == before[k]);
                }
            }
            assert(self@.entries =~= old(self)@.entries.update(
                i as int,
                Self::row_cached(old(self)@.entries[i as int], offset, cell_views(record@)),
            )) by {
                assert forall|j: int| 0 <= j < self@.entries.len() implies self@.entries[j] == old(self)@.entries.update(
                    i as int,
                    Self::row_cached(old(self)@.entries[i as int], offset, cell_views(record@)),
                )[j] by {
                    if j != i {
                        assert(self.entries@[j] == before[j]);
                    }
                }
            }
        }
    }

    /// Takes row `current` of a run over a page and its margins, with the
    /// msgpack of each of its cells: a row of the page (`role` is
    /// [`RowRole::Page`]) goes at the end of the page's columns, and every
    /// row is cached at `current` in the entry at `i` (see
    /// [`PagerCache::insert_row`]).
    pub fn take_row(
        &mut self,
        i: usize,
        current: u64,
        role: RowRole,
        cells: &Vec<Vec<u8>>,
        page: &mut ColumnarBuffer,
    )
        requires
            old(self).wf(),
            i < old(self)@.entries.len(),
            row_encodable(cell_views(cells@)),
        ensures
            role == RowRole::Page ==> final(page)@ == row_appended(old(page)@, cell_views(cells@)),
            role != RowRole::Page ==> final(page)@ == old(page)@,
            final(self).wf(),
            final(self)@.clock == old(self)@.clock,
            final(self)@.entries == old(self)@.entries.update(
                i as int,
                Self::row_cached(old(self)@.entries[i as int], current, cell_views(cells@)),
            ),
            cells_of_msgpack(final(self)@.entries[i as int].records[current]) == Some(cell_views(cells@)),
    {
        if role == RowRole::Page {
            page.append_row(cells);
            proof {
                assert(cells@.map_values(|c: Vec<u8>| c@) =~= cell_views(cells@));
            }
        }
        self.insert_row(i, current, cells)
    }

    /// Records the names of the columns of the entry at `i`, unless they
    /// are known already.
    pub fn set_columns_if_not_set_yet(&mut self, i: usize, columns: Vec<String>)
        requires
            old(self).wf(),
            i < old(self)@.entries.len(),
            columns@.len() < usize::MAX,
        ensures
            final(self).wf(),
            final(self)@.clock == old(self)@.clock,
            final(self)@.entries.len() == old(self)@.entries.len(),
            forall|j: int| 0 <= j < old(self)@.entries.len() && j != i ==> final(self)@.entries[j] == old(self)@.entries[j],
            ({
                let e0 = old(self)@.entries[i as int];
                let e1 = final(self)@.entries[i as int];
                &&& e0.columns is Some ==> e1 == e0
                &&& e0.columns is None ==> e1.columns == Some(Rc::new(columns)) && e1.records == e0.records
                    && e1.query == e0.query && e1.params == e0.params && e1.num_records == e0.num_records
                    && e1.last_accessed == e0.last_accessed
            }),
    {
        let ghost before = self.entries@;
        self.entries[i].set_columns_if_not_set_yet(columns);
        proof {
            assert forall|k: int| 0 <= k < self.entries@.len() implies (#[trigger] self.entries@[k]).wf() by {
                if k != i {
                    assert(self.entries@[k] == before[k]);
                }
            }
            assert forall|j: int| 0 <= j < before.len() && j != i implies final(self)@.entries[j] == old(self)@.entries[j] by {
                assert(self.entries@[j] == before[j]);
            }
        }
    }

    /// Records that the query of the entry at `i` has `value` rows in all.
    pub fn set_num_records(&mut self, i: usize, value: u64)
        requires
            old(self).wf(),
            i < old(self)@.entries.len(),
        ensures
            final(self).wf(),
            final(self)@.clock == old(self)@.clock,
            final(self)@.entries == old(self)@.entries.update(
                i as int,
                EntryView { num_records: Some(value), ..old(self)@.entries[i as int] },
            ),
    {
        let ghost before = self.entries@;
        self.entries[i].set_num_records(value);
        proof {
            assert forall|k: int| 0 <= k < self.entries@.len() implies (#[trigger] self.entries@[k]).wf() by {
                if k != i {
                    assert(self.entries@[k] == before[k]);
                }
            }
            assert(self@.entries =~= old(self)@.entries.update(
                i as int,
                EntryView { num_records: Some(value), ..old(self)@.entries[i as int] },
            ));
        }
    }

    /// The query's rows ended at `current`, read from `offset` with at most
    /// `limit` asked for: when fewer rows came than were asked for, the
    /// number of rows is `current`; otherwise it stays as it was.
    pub fn rows_ended(&mut self, i: usize, current: u64, offset: u64, limit: u64)
        requires
            old(self).wf(),
            i < old(self)@.entries.len(),
        ensures
            final(self).wf(),
            final(self)@.clock == old(self)@.clock,
            current < offset + limit ==> final(self)@.entries == old(self)@.entries.update(
                i as int,
                EntryView { num_records: Some(current), ..old(self)@.entries[i as int] },
            ),
            current >= offset + limit ==> final(self)@ == old(self)@,
    {
        if current < offset || current - offset < limit {
            self.set_num_records(i, current);
        }
    }

    /// The total size of the cache in bytes (saturated at `u64::MAX`).
    pub fn total_size_bytes(&self) -> (r: u64)
        ensures
            r == cache_size(self@.entries),
    {
        let ghost es = self@.entries;
        let mut sum: u64 = 0;
        let mut i: usize = 0;
        while i < self.entries.len()
            invariant
                i <= self.entries@.len(),
                es == self@.entries,
                es.len() == self.entries@.len(),
                sum == (if sizes_sum(es, i as nat) <= u64::MAX {
                    sizes_sum(es, i as nat) as u64
                } else {
                    u64::MAX
                }),
            decreases self.entries@.len() - i,
        {
            proof {
                assert(es[i as int] == self.entries@[i as int]@);
                lemma_sizes_nonneg(es, i as nat);
            }
            sum = sum.saturating_add(self.entries[i].total_size_bytes());
            i = i + 1;
        }
        sum
    }

    /// Removes every entry.
    pub fn clear(&mut self)
        ensures
            final(self).wf(),
            final(self)@.entries == Seq::<EntryView>::empty(),
            final(self)@.clock == old(self)@.clock,
    {
        self.entries = Vec::new();
        proof {
            assert(self@.entries =~= Seq::<EntryView>::empty());
        }
    }

    /// The number of entries.
    pub fn len(&self) -> (r: usize)
        ensures
            r == self@.entries.len(),
    {
        self.entries.len()
    }

    /// Removes the least recently used entry (see [`lru_index`]), if any.
    pub fn dequeue(&mut self)
        requires
            old(self).wf(),
        ensures
            final(self).wf(),
            final(self)@.clock == old(self)@.clock,
            old(self)@.entries.len() == 0 ==> final(self)@.entries == old(self)@.entries,
            old(self)@.entries.len() > 0 ==> final(self)@.entries == old(self)@.entries.remove(
                lru_index(old(self)@.entries),
            ),
    {
        let ghost es = self@.entries;
        if self.entries.len() == 0 {
            return;
        }
        let mut best: usize = 0;
        let mut i: usize = 1;
        proof {
            assert(es.subrange(0, 1).drop_last() =~= es.subrange(0, 0));
        }
        while i < self.entries.len()
            invariant
                1 <= i <= self.entries@.len(),
                es == self@.entries,
                es == old(self)@.entries,
                self.wf(),
                self.clock == old(self)@.clock,
                es.len() == self.entries@.len(),
                best < i,
                best == lru_index(es.subrange(0, i as int)),
            decreases self.entries@.len() - i,
        {
            proof {
                let p = es.subrange(0, i + 1);
                assert(p.drop_last() =~= es.subrange(0, i as int));
                lemma_lru_index(es.subrange(0, i as int));
                assert(es[i as int] == self.entries@[i as int]@);
                assert(es[best as int] == self.entries@[best as int]@);
            }
            if self.entries[i].last_accessed() < self.entries[best].last_accessed() {
                best = i;
            }
            i = i + 1;
            proof {
                lemma_lru_index(es.subrange(0, i as int));
            }
        }
        proof {
            assert(es.subrange(0, es.len() as int) =~= es);
        }
        let ghost before = self.entries@;
        self.entries.remove(best);
        proof {
            assert(self@.entries =~= es.remove(best as int));
            assert forall|k: int| 0 <= k < self.entries@.len() implies (#[trigger] self.entries@[k]).wf() by {
                if k < best {
                    assert(self.entries@[k] == before[k]);
                } else {
                    assert(self.entries@[k] == before[k + 1]);
                }
            }
            if self.clock < u64::MAX {
                assert forall|k: int| 0 <= k < self.entries@.len() implies (#[trigger] self.entries@[k])@.last_accessed
                    < self.clock by {
                    if k < best {
                        assert(self.entries@[k] == before[k]);
                    } else {
                        assert(self.entries@[k] == before[k + 1]);
                    }
                }
            }
        }
    }
}

/// The entries left after `k` evictions of the least recently used one.
pub open spec fn evicted(es: Seq<EntryView>, k: nat) -> Seq<EntryView>
    decreases k,
{
    if k == 0 {
        es
    } else {
        let prev = evicted(es, (k - 1) as nat);
        if prev.len() == 0 {
            prev
        } else {
            prev.remove(lru_index(prev))
        }
    }
}

proof fn lemma_evicted_len(es: Seq<EntryView>, k: nat)
    requires
        k <= es.len(),
    ensures
        evicted(es, k).len() == es.len() - k,
    decreases k,
{
    if k > 0 {
        lemma_evicted_len(es, (k - 1) as nat);
        let prev = evicted(es, (k - 1) as nat);
        lemma_lru_index(prev);
    }
}

proof fn lemma_size_of_empty(es: Seq<EntryView>)
    requires
        es.len() == 0,
    ensures
        cache_size(es) == 0,
{
}

/// A page read from the cache: one row of it read back gives the cells
/// that were cached for that row. (Once a row with one cell per column has
/// been cached at `offset`, its cells read back as the rmp_serde round trip
/// of what was written, and a page of that one row is in the cache while
/// the number of rows is unknown.)
pub proof fn law_cached_row_reads_back(e: EntryView, offset: u64, cells: Seq<Seq<u8>>)
    requires
        e.columns is Some,
        e.num_records is None,
        offset < u64::MAX,
        e.records.contains_key(offset),
        cells_of_msgpack(e.records[offset]) == Some(cells),
        cells.len() == column_count(e),
    ensures
        has_range_spec(e, offset, 1),
        page_columns(e, offset, 1) == cells,
{
    assert(range_end(e, offset, 1) == offset + 1);
    assert forall|row: u64| offset <= row < range_end(e, offset, 1) implies #[trigger] e.records.contains_key(row) by {
        assert(row == offset);
    }
    let rows = page_rows(e, offset, 1);
    assert(rows[0] == cells);
    assert(cells.len() == column_count(e));
    assert forall|c: int| 0 <= c < cells.len() implies #[trigger] page_columns(e, offset, 1)[c] == cells[c] by {
        assert(column_concat(rows, c, 1) == column_concat(rows, c, 0) + rows[0][c]);
        assert(column_concat(rows, c, 0) =~= Seq::<u8>::empty());
        assert(column_concat(rows, c, 1) =~= cells[c]);
    }
    assert(page_columns(e, offset, 1) =~= cells);
}

/// How many rows a page of `limit` rows from `offset` has: never more than
/// `limit`; all of them while the number of rows of the query is unknown;
/// once it is known to be `n`, those of the rows `offset..n` that the page
/// reaches (none when `offset` is at or past `n`).
pub proof fn law_page_row_count(e: EntryView, offset: u64, limit: u64)
    requires
        page_in_range(offset, limit),
    ensures
        0 <= range_end(e, offset, limit) - offset <= limit,
        e.num_records is None ==> range_end(e, offset, limit) - offset == limit,
        e.num_records matches Some(n) ==> range_end(e, offset, limit) - offset == (if n <= offset {
            0
        } else if n - offset < limit {
            n - offset
        } else {
            limit as int
        }),
{
}

/// Asking for a page again gives the same page: an entry that was only
/// marked as used (as [`PagerCache::entry`] does to the entry that it
/// finds) holds the same page, with the same rows, as before.
pub proof fn law_repeated_page_is_unchanged(e: EntryView, now: u64, offset: u64, limit: u64)
    ensures
        ({
            let used = EntryView { last_accessed: now, ..e };
            &&& has_range_spec(used, offset, limit) == has_range_spec(e, offset, limit)
            &&& range_end(used, offset, limit) == range_end(e, offset, limit)
            &&& page_columns(used, offset, limit) == page_columns(e, offset, limit)
        }),
{
}

/// The entry after the rows `rows[0..n]` were cached one after another,
/// row `k` at `offset + k` (see [`PagerCache::take_row`]).
pub open spec fn rows_cached(e: EntryView, offset: u64, rows: Seq<Seq<Seq<u8>>>, n: nat) -> EntryView
    decreases n,
{
    if n == 0 || n > rows.len() {
        e
    } else {
        PagerCache::row_cached(rows_cached(e, offset, rows, (n - 1) as nat), (offset + n - 1) as u64, rows[n - 1])
    }
}

proof fn lemma_rows_cached(e: EntryView, offset: u64, rows: Seq<Seq<Seq<u8>>>, n: nat)
    requires
        n <= rows.len(),
        offset + rows.len() <= u64::MAX,
    ensures
        rows_cached(e, offset, rows, n).columns == e.columns,
        rows_cached(e, offset, rows, n).num_records == e.num_records,
        forall|k: int|
            0 <= k < n ==> #[trigger] rows_cached(e, offset, rows, n).records.contains_key((offset + k) as u64)
                && rows_cached(e, offset, rows, n).records[(offset + k) as u64] == msgpack_of_cells(rows[k]),
    decreases n,
{
    if n > 0 {
        lemma_rows_cached(e, offset, rows, (n - 1) as nat);
        let prev = rows_cached(e, offset, rows, (n - 1) as nat);
        let cur = rows_cached(e, offset, rows, n);
        assert forall|k: int| 0 <= k < n implies #[trigger] cur.records.contains_key((offset + k) as u64)
            && cur.records[(offset + k) as u64] == msgpack_of_cells(rows[k]) by {
            if k < n - 1 {
                assert(prev.records.contains_key((offset + k) as u64));
                assert((offset + k) as u64 != (offset + n - 1) as u64);
            }
        }
    }
}

/// A repeated query is answered from the cache: once the rows of a page
/// were fetched and each cached at its offset (as [`PagerCache::take_row`]
/// does with every fetched row), with as many cells as the query has
/// columns, the page is in the cache while the number of rows of the query
/// is unknown, and reading it back gives the rows that were fetched.
pub proof fn law_fetched_page_is_cached(e: EntryView, offset: u64, rows: Seq<Seq<Seq<u8>>>)
    requires
        e.columns is Some,
        e.num_records is None,
        offset + rows.len() <= u64::MAX,
        forall|k: int|
            0 <= k < rows.len() ==> (#[trigger] rows[k]).len() == column_count(e) && cells_of_msgpack(
                msgpack_of_cells(rows[k]),
            ) == Some(rows[k]),
    ensures
        ({
            let cached = rows_cached(e, offset, rows, rows.len());
            &&& has_range_spec(cached, offset, rows.len() as u64)
            &&& page_rows(cached, offset, rows.len()) == rows
        }),
{
    lemma_rows_cached(e, offset, rows, rows.len());
    let cached = rows_cached(e, offset, rows, rows.len());
    let limit = rows.len() as u64;
    assert(range_end(cached, offset, limit) == offset + limit);
    assert forall|row: u64| offset <= row < range_end(cached, offset, limit) implies #[trigger] cached.records.contains_key(
        row,
    ) && (cells_of_msgpack(cached.records[row]) matches Some(c) && c.len() == column_count(cached)) by {
        let k = row - offset;
        assert((offset + k) as u64 == row);
        assert(cached.records.contains_key((offset + k) as u64));
        assert(cached.records[(offset + k) as u64] == msgpack_of_cells(rows[k]));
    }
    assert forall|k: int| 0 <= k < rows.len() implies #[trigger] page_rows(cached, offset, rows.len())[k] == rows[k] by {
        assert(cached.records.contains_key((offset + k) as u64));
        assert(cached.records[(offset + k) as u64] == msgpack_of_cells(rows[k]));
    }
    assert(page_rows(cached, offset, rows.len()) =~= rows);
}

/// The entry used last is not the next to be evicted: when its use is the
/// most recent of two or more entries, the least recently used entry is
/// another one.
pub proof fn law_entry_just_used_is_not_evicted_next(es: Seq<EntryView>, r: int)
    requires
        0 <= r < es.len(),
        es.len() >= 2,
        forall|j: int| 0 <= j < es.len() && j != r ==> (#[trigger] es[j]).last_accessed < es[r].last_accessed,
    ensures
        lru_index(es) != r,
{
    lemma_lru_index(es);
    let other = if r == 0 {
        1int
    } else {
        0int
    };
    assert(es[other].last_accessed < es[r].last_accessed);
}

// ---------------------------------------------------------------------------
// The pager
// ---------------------------------------------------------------------------

/// The size limits of the cache and the rows fetched around a page.
#[derive(Clone, Debug, Eq, PartialEq)]
pub struct PagerConfig {
    /// The bytes that one query may add to the cache in its end margin.
    pub per_query_cache_limit_bytes: u64,
    /// The bytes above which least recently used entries are evicted.
    pub cache_limit_bytes: u64,
    /// The number of rows to prefetch before the start of the page.
    pub margin_start: u64,
    /// The number of rows to prefetch after the end of the page.
    pub margin_end: u64,
}

impl Default for PagerConfig {
    fn default() -> (r: Self)
        ensures
            r.per_query_cache_limit_bytes == 8 * 1024 * 1024,
            r.cache_limit_bytes == 64 * 1024 * 1024,
            r.margin_start == 0,
            r.margin_end == 100000,
    {
        PagerConfig {
            per_query_cache_limit_bytes: 8 * 1024 * 1024,
            cache_limit_bytes: 64 * 1024 * 1024,
            margin_start: 0,
            margin_end: 100000,
        }
    }
}

/// Where a fetched row lies relative to the page asked for.
#[derive(Clone, Copy, Debug, Eq, PartialEq, Structural)]
pub enum RowRole {
    /// Before the page: prefetched, not returned.
    StartMargin,
    /// In the page: returned.
    Page,
    /// After the page: prefetched, not returned.
    EndMargin,
}

/// The text that every paged query ends with.
pub open spec fn paged_suffix() -> Seq<char> {
    "LIMIT ? OFFSET ?"@
}

/// The page that a query asks for: for a query that ends with `LIMIT ?
/// OFFSET ?`, whose last two parameters are integers that are not
/// negative, the limit and the offset; `None` for any other query.
pub open spec fn paging_spec(query: Seq<char>, params: Seq<CacheParamView>) -> Option<(u64, u64)> {
    let n = params.len();
    let k = paged_suffix().len();
    if query.len() >= k && query.subrange(query.len() - k, query.len() as int) == paged_suffix() && n >= 2 {
        match (params[n - 2], params[n - 1]) {
            (CacheParamView::I64(l), CacheParamView::I64(o)) => if l >= 0 && o >= 0 {
                Some((l as u64, o as u64))
            } else {
                None
            },
            _ => None,
        }
    } else {
        None
    }
}

/// The page widened by the margins: `limit` plus the rows before it (as
/// many as the start margin, but not before the first row) plus the end
/// margin, from `offset` less the start margin (not below zero); `None`
/// when the widened limit does not fit in an `i64`.
pub open spec fn widened_spec(config: PagerConfig, limit: u64, offset: u64) -> Option<(u64, u64)> {
    let before = if config.margin_start <= offset {
        config.margin_start
    } else {
        offset
    };
    let l = limit + before + config.margin_end;
    if l <= i64::MAX {
        Some((l as u64, (offset - before) as u64))
    } else {
        None
    }
}

/// The caches of paged queries, and the data version of the database they
/// were read at.
pub struct Pager {
    pub cache: PagerCache,
    pub data_version: Option<i64>,
    pub config: PagerConfig,
}

impl Pager {
    pub open spec fn spec_data_version(&self) -> Option<i64> {
        self.data_version
    }

    /// An empty pager with the default configuration.
    pub fn new() -> (r: Self)
        ensures
            r.cache.wf(),
            r.cache@.entries == Seq::<EntryView>::empty(),
            r.spec_data_version() is None,
            r.config.per_query_cache_limit_bytes == 8 * 1024 * 1024,
            r.config.cache_limit_bytes == 64 * 1024 * 1024,
            r.config.margin_start == 0,
            r.config.margin_end == 100000,
    {
        Pager { cache: PagerCache::new(), data_version: None, config: PagerConfig::default() }
    }

    /// The data version that the cache was read at.
    pub fn data_version(&self) -> (r: Option<i64>)
        ensures
            r == self.spec_data_version(),
    {
        self.data_version
    }

    /// Empties the cache.
    pub fn clear_cache(&mut self)
        ensures
            final(self).cache.wf(),
            final(self).cache@.entries == Seq::<EntryView>::empty(),
            final(self).cache@.clock == old(self).cache@.clock,
            final(self).spec_data_version() == old(self).spec_data_version(),
            final(self).config == old(self).config,
    {
        self.cache.clear();
    }

    /// The total size of the cache in bytes.
    pub fn total_cache_size_bytes(&self) -> (r: u64)
        ensures
            r == cache_size(self.cache@.entries),
    {
        self.cache.total_size_bytes()
    }

    /// Brings the cache up to the database's `data_version`: a new version
    /// empties it; otherwise least recently used entries are evicted until
    /// the cache fits its limit. Returns the number of entries evicted.
    pub fn sync_data_version(&mut self, data_version: i64) -> (r: u64)
        requires
            old(self).cache.wf(),
        ensures
            final(self).cache.wf(),
            final(self).spec_data_version() == Some(data_version),
            final(self).config == old(self).config,
            final(self).cache@.clock == old(self).cache@.clock,
            old(self).spec_data_version() != Some(data_version) ==> r == 0 && final(self).cache@.entries
                == Seq::<EntryView>::empty(),
            old(self).spec_data_version() == Some(data_version) ==> {
                &&& final(self).cache@.entries == evicted(old(self).cache@.entries, r as nat)
                &&& cache_size(final(self).cache@.entries) <= old(self).config.cache_limit_bytes
                &&& forall|k: nat| k < r ==> cache_size(#[trigger] evicted(old(self).cache@.entries, k))
                    > old(self).config.cache_limit_bytes
            },
    {
        if self.data_version != Some(data_version) {
            self.clear_cache();
            self.data_version = Some(data_version);
            return 0;
        }
        let ghost es = self.cache@.entries;
        let total = self.cache.len();
        let mut count: u64 = 0;
        while self.cache.total_size_bytes() > self.config.cache_limit_bytes
            invariant
                total == es.len(),
                total <= usize::MAX,
                self.cache.wf(),
                self.config == old(self).config,
                self.data_version == Some(data_version),
                self.cache@.clock == old(self).cache@.clock,
                es == old(self).cache@.entries,
                count <= es.len(),
                self.cache@.entries == evicted(es, count as nat),
                forall|k: nat| k < count ==> cache_size(#[trigger] evicted(es, k)) > self.config.cache_limit_bytes,
            decreases self.cache@.entries.len(),
        {
            proof {
                lemma_evicted_len(es, count as nat);
                if self.cache@.entries.len() == 0 {
                    lemma_size_of_empty(self.cache@.entries);
                }
                assert(self.cache@.entries.len() > 0);
                assert(count < es.len());
            }
            let ghost before = self.cache@.entries;
            self.cache.dequeue();
            proof {
                lemma_lru_index(before);
                assert(self.cache@.entries.len() == before.len() - 1);
            }
            count = count + 1;
            proof {
                assert(evicted(es, count as nat) == before.remove(lru_index(before)));
            }
        }
        count
    }

    /// A page of `limit` rows from `offset` can be read through the cache:
    /// its end fits in a `u64` and its limit in an `i64`.
    pub fn page_fits(offset: u64, limit: u64) -> (r: bool)
        ensures
            r == page_in_range(offset, limit),
    {
        offset <= u64::MAX - limit && limit <= 0x7fff_ffff_ffff_ffffu64
    }

    /// The page that a query asks for (see [`paging_spec`]).
    pub fn paging(query: &str, params: &[CacheParam]) -> (r: Option<(u64, u64)>)
        ensures
            r == paging_spec(query@, param_views(params@)),
    {
        let q = str_chars(query);
        let suffix = str_chars("LIMIT ? OFFSET ?");
        let n = params.len();
        if q.len() < suffix.len() || n < 2 {
            return None;
        }
        let mut i: usize = 0;
        let start = q.len() - suffix.len();
        while i < suffix.len()
            invariant
                i <= suffix@.len(),
                q@.len() == q.len(),
                suffix@ == paged_suffix(),
                start + suffix@.len() == q@.len(),
                q@ == query@,
                forall|k: int| 0 <= k < i ==> q@[start + k] == suffix@[k],
            decreases suffix@.len() - i,
        {
            if q[start + i] != suffix[i] {
                proof {
                    assert(q@.subrange(start as int, q@.len() as int)[i as int] != paged_suffix()[i as int]);
                }
                return None;
            }
            i = i + 1;
        }
        proof {
            assert(q@.subrange(start as int, q@.len() as int) =~= paged_suffix());
            assert(param_views(params@)[n - 2] == params@[n - 2]@);
            assert(param_views(params@)[n - 1] == params@[n - 1]@);
        }
        match (&params[n - 2], &params[n - 1]) {
            (CacheParam::I64(l), CacheParam::I64(o)) => {
                if *l >= 0 && *o >= 0 {
                    Some((*l as u64, *o as u64))
                } else {
                    None
                }
            },
            _ => None,
        }
    }

    /// The page widened by the margins (see [`widened_spec`]).
    pub fn widened_page(&self, limit: u64, offset: u64) -> (r: Option<(u64, u64)>)
        ensures
            r == widened_spec(self.config, limit, offset),
    {
        let before = if self.config.margin_start <= offset {
            self.config.margin_start
        } else {
            offset
        };
        let max: u64 = 0x7fff_ffff_ffff_ffff;
        if limit > max || before > max - limit || self.config.margin_end > max - limit - before {
            return None;
        }
        Some((limit + before + self.config.margin_end, offset - before))
    }

    /// Where the row at `current` lies relative to the page of `limit` rows
    /// from `offset`.
    pub fn row_role(current: u64, offset: u64, limit: u64) -> (r: RowRole)
        requires
            offset + limit <= u64::MAX,
        ensures
            current < offset ==> r == RowRole::StartMargin,
            offset <= current < offset + limit ==> r == RowRole::Page,
            offset + limit <= current ==> r == RowRole::EndMargin,
    {
        if current < offset {
            RowRole::StartMargin
        } else if offset + limit <= current {
            RowRole::EndMargin
        } else {
            RowRole::Page
        }
    }

    /// The rows to fetch backwards after `end_margin_size` rows were cached
    /// after the page at `offset`: as many rows before it (not below
    /// zero), as `(limit, offset)`.
    pub fn backward_page(offset: u64, end_margin_size: u64) -> (r: (u64, u64))
        ensures
            r.1 == if end_margin_size <= offset {
                offset - end_margin_size
            } else {
                0
            },
            r.0 == offset - r.1,
    {
        let start = offset.saturating_sub(end_margin_size);
        (offset - start, start)
    }

    /// Whether the rows cached in the end margin of a query, from a cache
    /// entry of `size_before` bytes to one of `size_now` bytes, stay within
    /// half the per-query limit.
    pub fn end_margin_within_budget(&self, size_before: u64, size_now: u64) -> (r: bool)
        ensures
            r == ((if size_now >= size_before {
                size_now - size_before
            } else {
                0
            }) < self.config.per_query_cache_limit_bytes / 2),
    {
        size_now.saturating_sub(size_before) < self.config.per_query_cache_limit_bytes / 2
    }

    /// The entry of the cache for `query` with `params` (added if there is
    /// none, and marked as used), and the page of `limit` rows from
    /// `offset` if it is wholly cached.
    pub fn cached_page(&mut self, query: &str, params: &[CacheParam], limit: u64, offset: u64) -> (r: (
        usize,
        Option<Records>,
    ))
        requires
            old(self).cache.wf(),
            params@.len() >= 2,
            page_in_range(offset, limit),
        ensures
            final(self).cache.wf(),
            final(self).config == old(self).config,
            final(self).spec_data_version() == old(self).spec_data_version(),
            r.0 < final(self).cache@.entries.len(),
            entry_is_for(
                final(self).cache@.entries[r.0 as int],
                query@,
                param_views(params@).subrange(0, params@.len() - 2),
            ),
            ({
                let e = final(self).cache@.entries[r.0 as int];
                &&& !has_range_spec(e, offset, limit) ==> r.1 is None
                &&& has_range_spec(e, offset, limit) ==> (r.1 matches Some(rec) && cell_views(
                    rec.spec_col_buf(),
                ) == page_columns(e, offset, limit) && rec.spec_n_rows() == range_end(e, offset, limit)
                    - offset && Some(rec.spec_columns()) == e.columns)
            }),
    {
        let i = self.cache.entry(query, params);
        let page = self.cache.get(i).get_range(offset, limit);
        (i, page)
    }
}

/// The text of `s` as a new string.
fn str_chars_string(s: &str) -> (r: String)
    ensures
        r@ == s@,
{
    s.to_string()
}

} // verus!
