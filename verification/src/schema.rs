//! The schema of tables as the editor shows it: columns, indexes,
//! triggers, foreign keys and where the columns of a query come from.
use vstd::prelude::*;

use std::collections::HashMap;

use crate::bridge::{str_to_lowercase, unicode_lowercase};
use crate::text::{chars_eq, str_chars};

verus! {

/// A foreign key of a column.
#[derive(Clone, Debug, Eq, PartialEq)]
pub struct TableSchemaColumnForeignKey {
    pub id: i64,
    pub seq: i64,
    pub table: String,
    pub to: String,
    pub on_update: String,
    pub on_delete: String,
    pub match_: String,
}

/// A column of a table.
#[derive(Clone, Debug, Eq, PartialEq)]
pub struct TableSchemaColumn {
    pub cid: i64,
    pub dflt_value: Option<String>,
    pub name: String,
    pub notnull: bool,
    pub type_: String,
    pub pk: bool,
    pub auto_increment: bool,
    pub foreign_keys: Vec<TableSchemaColumnForeignKey>,
    /// 1: columns in virtual tables, 2: dynamic generated columns, 3: stored generated columns
    pub hidden: i64,
}

/// A column of an index.
#[derive(Clone, Debug, Eq, PartialEq)]
pub struct IndexColumn {
    pub seqno: i64,
    pub cid: i64,
    pub name: Option<String>,
}

/// An index of a table.
#[derive(Clone, Debug, Eq, PartialEq)]
pub struct TableSchemaIndex {
    pub seq: i64,
    pub name: String,
    pub unique: i64,
    pub origin: String,
    pub partial: i64,
    pub columns: Vec<IndexColumn>,
    pub schema: Option<String>,
}

/// A trigger of a table.
#[derive(Clone, Debug, Eq, PartialEq)]
pub struct TableSchemaTrigger {
    pub name: String,
    pub sql: String,
}

/// Where a column of a query comes from.
#[derive(Clone, Debug, Default, Eq, PartialEq)]
pub struct ColumnOrigin {
    pub database: String,
    pub table: String,
    pub column: String,
}

impl ColumnOrigin {
    pub fn new(database: String, table: String, column: String) -> (r: Self)
        ensures
            r.database == database,
            r.table == table,
            r.column == column,
    {
        ColumnOrigin { database, table, column }
    }
}

/// Where a column of a query comes from, and whether it is the rowid.
#[derive(Clone, Debug, Default, Eq, PartialEq)]
pub struct ColumnOriginAndIsRowId {
    pub database: String,
    pub table: String,
    pub column: String,
    pub is_rowid: bool,
}

impl ColumnOriginAndIsRowId {
    pub fn new(is_rowid: bool, column_origin: ColumnOrigin) -> (r: Self)
        ensures
            r.is_rowid == is_rowid,
            r.database == column_origin.database,
            r.table == column_origin.table,
            r.column == column_origin.column,
    {
        ColumnOriginAndIsRowId {
            is_rowid,
            database: column_origin.database,
            table: column_origin.table,
            column: column_origin.column,
        }
    }
}

/// The kinds of tables.
#[derive(Clone, Copy, Debug, Eq, PartialEq, Hash, Structural)]
pub enum TableType {
    Table,
    View,
    Shadow,
    Virtual,
    /// What a custom query is shown as.
    CustomQuery,
    Other,
}

/// The schema of a table or of a custom query.
#[derive(Clone, Debug, Eq, PartialEq)]
pub struct TableSchema {
    pub schema: Option<String>,
    pub has_rowid_column: bool,
    pub strict: bool,
    pub columns: Vec<TableSchemaColumn>,
    pub indexes: Vec<TableSchemaIndex>,
    pub triggers: Vec<TableSchemaTrigger>,
    pub name: Option<String>,
    pub type_: TableType,
    pub custom_query: Option<String>,
    pub column_origins: Option<HashMap<String, ColumnOriginAndIsRowId>>,
}

/// A table of a database.
#[derive(Clone, Debug, Eq, PartialEq)]
pub struct TableName {
    pub database: String,
    pub name: String,
    pub type_: TableType,
}

/// The type of a table by the name that `PRAGMA table_list` gives it.
pub open spec fn table_type_of(s: Seq<char>) -> TableType {
    if s == seq!['t', 'a', 'b', 'l', 'e'] {
        TableType::Table
    } else if s == seq!['v', 'i', 'e', 'w'] {
        TableType::View
    } else if s == seq!['v', 'i', 'r', 't', 'u', 'a', 'l'] {
        TableType::Virtual
    } else if s == seq!['s', 'h', 'a', 'd', 'o', 'w'] {
        TableType::Shadow
    } else {
        TableType::Other
    }
}

impl TableType {
    /// The type of a table by the name that `PRAGMA table_list` gives it:
    /// "table", "view", "virtual" or "shadow"; any other name is `Other`.
    pub fn from_type_name(value: &str) -> (r: Self)
        ensures
            r == table_type_of(value@),
    {
        let c = str_chars(value);
        let table: Vec<char> = vec!['t', 'a', 'b', 'l', 'e'];
        let view: Vec<char> = vec!['v', 'i', 'e', 'w'];
        let virt: Vec<char> = vec!['v', 'i', 'r', 't', 'u', 'a', 'l'];
        let shadow: Vec<char> = vec!['s', 'h', 'a', 'd', 'o', 'w'];
        proof {
            assert(table@ =~= seq!['t', 'a', 'b', 'l', 'e']);
            assert(view@ =~= seq!['v', 'i', 'e', 'w']);
            assert(virt@ =~= seq!['v', 'i', 'r', 't', 'u', 'a', 'l']);
            assert(shadow@ =~= seq!['s', 'h', 'a', 'd', 'o', 'w']);
        }
        if chars_eq(&c, &table) {
            TableType::Table
        } else if chars_eq(&c, &view) {
            TableType::View
        } else if chars_eq(&c, &virt) {
            TableType::Virtual
        } else if chars_eq(&c, &shadow) {
            TableType::Shadow
        } else {
            TableType::Other
        }
    }
}

impl<'a> From<&'a str> for TableType {
    fn from(value: &'a str) -> (r: Self) {
        TableType::from_type_name(value)
    }
}

impl<'a> vstd::std_specs::convert::FromSpecImpl<&'a str> for TableType {
    open spec fn obeys_from_spec() -> bool {
        true
    }

    open spec fn from_spec(v: &'a str) -> Self {
        table_type_of(v@)
    }
}

/// A column of a table that refers to another table, and how many rows
/// refer.
#[derive(Clone, Debug, Eq, PartialEq)]
pub struct Reference {
    pub table: String,
    pub column: String,
    pub count: u64,
}

/// The foreign keys of the columns of a table: column -> foreign keys.
pub type ForeignKeyList = HashMap<String, Vec<TableSchemaColumnForeignKey>>;

/// The foreign keys of the tables read so far: (database, table) -> the
/// foreign keys of its columns.
#[derive(Default)]
pub struct ForeignKeyListCache {
    pub tables: HashMap<(String, String), ForeignKeyList>,
}

impl View for TableSchemaColumnForeignKey {
    type V = (i64, i64, Seq<char>, Seq<char>, Seq<char>, Seq<char>, Seq<char>);

    open spec fn view(&self) -> Self::V {
        (self.id, self.seq, self.table@, self.to@, self.on_update@, self.on_delete@, self.match_@)
    }
}

pub open spec fn fk_views(v: Seq<TableSchemaColumnForeignKey>) -> Seq<
    (i64, i64, Seq<char>, Seq<char>, Seq<char>, Seq<char>, Seq<char>),
> {
    v.map_values(|f: TableSchemaColumnForeignKey| f@)
}

/// A row of `PRAGMA foreign_key_list`: the column `from` refers to the
/// column `to` of `table` (`None` when it refers to the primary key and
/// that could not be found).
#[derive(Clone, Debug, Eq, PartialEq)]
pub struct ForeignKeyListEntry {
    pub id: i64,
    pub seq: i64,
    pub table: String,
    pub from: String,
    pub to: Option<String>,
    pub on_update: String,
    pub on_delete: String,
    pub match_: String,
}

pub struct ForeignKeyListEntryView {
    pub id: i64,
    pub seq: i64,
    pub table: Seq<char>,
    pub from: Seq<char>,
    pub to: Option<Seq<char>>,
    pub on_update: Seq<char>,
    pub on_delete: Seq<char>,
    pub match_: Seq<char>,
}

impl View for ForeignKeyListEntry {
    type V = ForeignKeyListEntryView;

    open spec fn view(&self) -> ForeignKeyListEntryView {
        ForeignKeyListEntryView {
            id: self.id,
            seq: self.seq,
            table: self.table@,
            from: self.from@,
            to: match self.to {
                Some(t) => Some(t@),
                None => None,
            },
            on_update: self.on_update@,
            on_delete: self.on_delete@,
            match_: self.match_@,
        }
    }
}

pub open spec fn fk_entry_views(v: Seq<ForeignKeyListEntry>) -> Seq<ForeignKeyListEntryView> {
    v.map_values(|e: ForeignKeyListEntry| e@)
}

/// A foreign key is left out when one of its rows has no column it refers to.
pub open spec fn fk_invalid(es: Seq<ForeignKeyListEntryView>, id: i64) -> bool {
    exists|j: int| 0 <= j < es.len() && (#[trigger] es[j]).id == id && es[j].to is None
}

/// The row `e` kept: it belongs to a foreign key that is not left out.
pub open spec fn fk_kept(es: Seq<ForeignKeyListEntryView>, e: ForeignKeyListEntryView) -> bool {
    !fk_invalid(es, e.id)
}

pub open spec fn fk_of_entry(e: ForeignKeyListEntryView) -> (i64, i64, Seq<char>, Seq<char>, Seq<char>, Seq<char>, Seq<char>) {
    (e.id, e.seq, e.table, e.to->0, e.on_update, e.on_delete, e.match_)
}

/// The foreign keys of column `c` among the first `n` rows, in order.
pub open spec fn column_fks(es: Seq<ForeignKeyListEntryView>, n: nat, c: Seq<char>) -> Seq<
    (i64, i64, Seq<char>, Seq<char>, Seq<char>, Seq<char>, Seq<char>),
>
    decreases n,
{
    if n == 0 || n > es.len() {
        seq![]
    } else {
        let prev = column_fks(es, (n - 1) as nat, c);
        let e = es[n - 1];
        if e.from == c && fk_kept(es, e) {
            prev.push(fk_of_entry(e))
        } else {
            prev
        }
    }
}

/// Whether `id` is the id of a row among `ids`.
fn contains_id(ids: &Vec<i64>, id: i64) -> (r: bool)
    ensures
        r == ids@.contains(id),
{
    let mut i: usize = 0;
    while i < ids.len()
        invariant
            i <= ids@.len(),
            forall|k: int| 0 <= k < i ==> ids@[k] != id,
        decreases ids@.len() - i,
    {
        if ids[i] == id {
            return true;
        }
        i = i + 1;
    }
    false
}

/// The ids of the foreign keys that are left out.
fn invalid_fk_ids(entries: &Vec<ForeignKeyListEntry>) -> (r: Vec<i64>)
    ensures
        forall|id: i64| r@.contains(id) <==> fk_invalid(fk_entry_views(entries@), id),
{
    let ghost es = fk_entry_views(entries@);
    let mut r: Vec<i64> = Vec::new();
    let mut i: usize = 0;
    while i < entries.len()
        invariant
            i <= entries@.len(),
            es == fk_entry_views(entries@),
            forall|id: i64|
                r@.contains(id) <==> exists|j: int| 0 <= j < i && (#[trigger] es[j]).id == id && es[j].to is None,
        decreases entries@.len() - i,
    {
        if entries[i].to.is_none() {
            let ghost old_r = r@;
            r.push(entries[i].id);
            proof {
                assert forall|id: i64| r@.contains(id) <==> exists|j: int|
                    0 <= j < i + 1 && (#[trigger] es[j]).id == id && es[j].to is None by {
                    if r@.contains(id) {
                        let k = choose|k: int| 0 <= k < r@.len() && r@[k] == id;
                        if k < old_r.len() {
                            assert(old_r[k] == id);
                            assert(old_r.contains(id));
                        } else {
                            assert(es[i as int].id == id);
                        }
                    }
                    if exists|j: int| 0 <= j < i + 1 && (#[trigger] es[j]).id == id && es[j].to is None {
                        let j = choose|j: int| 0 <= j < i + 1 && (#[trigger] es[j]).id == id && es[j].to is None;
                        if j < i {
                            assert(old_r.contains(id));
                            let k = choose|k: int| 0 <= k < old_r.len() && old_r[k] == id;
                            assert(r@[k] == id);
                        } else {
                            assert(r@[old_r.len() as int] == id);
                        }
                    }
                }
            }
        } else {
            proof {
                assert forall|id: i64| r@.contains(id) <==> exists|j: int|
                    0 <= j < i + 1 && (#[trigger] es[j]).id == id && es[j].to is None by {
                    if exists|j: int| 0 <= j < i + 1 && (#[trigger] es[j]).id == id && es[j].to is None {
                        let j = choose|j: int| 0 <= j < i + 1 && (#[trigger] es[j]).id == id && es[j].to is None;
                        assert(j < i);
                    }
                }
            }
        }
        i = i + 1;
    }
    r
}

fn copy_text(s: &String) -> (r: String)
    ensures
        r@ == s@,
{
    s.clone()
}

/// The foreign keys of column `column`, in the order of their rows.
fn column_foreign_keys(entries: &Vec<ForeignKeyListEntry>, invalid: &Vec<i64>, column: &String) -> (r: Vec<
    TableSchemaColumnForeignKey,
>)
    requires
        forall|id: i64| invalid@.contains(id) <==> fk_invalid(fk_entry_views(entries@), id),
    ensures
        fk_views(r@) == column_fks(fk_entry_views(entries@), entries@.len(), column@),
{
    let ghost es = fk_entry_views(entries@);
    let c = str_chars(column.as_str());
    let mut r: Vec<TableSchemaColumnForeignKey> = Vec::new();
    let mut i: usize = 0;
    while i < entries.len()
        invariant
            i <= entries@.len(),
            es == fk_entry_views(entries@),
            c@ == column@,
            forall|id: i64| invalid@.contains(id) <==> fk_invalid(es, id),
            fk_views(r@) == column_fks(es, i as nat, column@),
        decreases entries@.len() - i,
    {
        let e = &entries[i];
        proof {
            assert(es[i as int] == e@);
        }
        let same = chars_eq(&str_chars(e.from.as_str()), &c);
        if same && !contains_id(invalid, e.id) {
            let to = match &e.to {
                Some(t) => copy_text(t),
                None => String::new(),
            };
            proof {
                assert(!invalid@.contains(e.id));
                if e.to is None {
                    assert(es[i as int].id == e.id && es[i as int].to is None);
                    assert(fk_invalid(es, e.id));
                }
            }
            let ghost old_r = fk_views(r@);
            r.push(
                TableSchemaColumnForeignKey {
                    id: e.id,
                    seq: e.seq,
                    table: copy_text(&e.table),
                    to,
                    on_update: copy_text(&e.on_update),
                    on_delete: copy_text(&e.on_delete),
                    match_: copy_text(&e.match_),
                },
            );
            proof {
                assert(fk_views(r@) =~= old_r.push(fk_of_entry(es[i as int])));
            }
        }
        i = i + 1;
    }
    r
}

/// The foreign keys of a table by column, read from the rows of `PRAGMA
/// foreign_key_list` (with the columns they refer to filled in): each
/// column that has a kept row appears once, with the foreign keys of its
/// kept rows in order; a foreign key with a row that refers to no column is
/// left out whole.
pub fn foreign_key_list(entries: &Vec<ForeignKeyListEntry>) -> (r: Vec<(String, Vec<TableSchemaColumnForeignKey>)>)
    ensures
        forall|i: int, j: int| 0 <= i < j < r@.len() ==> (#[trigger] r@[i]).0@ != (#[trigger] r@[j]).0@,
        forall|i: int|
            0 <= i < r@.len() ==> fk_views((#[trigger] r@[i]).1@) == column_fks(
                fk_entry_views(entries@),
                entries@.len(),
                r@[i].0@,
            ) && r@[i].1@.len() > 0,
        forall|j: int|
            0 <= j < entries@.len() && fk_kept(fk_entry_views(entries@), #[trigger] fk_entry_views(entries@)[j])
                ==> exists|i: int| 0 <= i < r@.len() && (#[trigger] r@[i]).0@ == fk_entry_views(entries@)[j].from,
{
    let ghost es = fk_entry_views(entries@);
    let invalid = invalid_fk_ids(entries);
    let mut r: Vec<(String, Vec<TableSchemaColumnForeignKey>)> = Vec::new();
    let mut i: usize = 0;
    while i < entries.len()
        invariant
            i <= entries@.len(),
            es == fk_entry_views(entries@),
            forall|id: i64| invalid@.contains(id) <==> fk_invalid(es, id),
            forall|a: int, b: int| 0 <= a < b < r@.len() ==> (#[trigger] r@[a]).0@ != (#[trigger] r@[b]).0@,
            forall|a: int|
                0 <= a < r@.len() ==> fk_views((#[trigger] r@[a]).1@) == column_fks(es, es.len(), r@[a].0@)
                    && r@[a].1@.len() > 0,
            forall|j: int|
                0 <= j < i && fk_kept(es, #[trigger] es[j]) ==> exists|a: int|
                    0 <= a < r@.len() && (#[trigger] r@[a]).0@ == es[j].from,
        decreases entries@.len() - i,
    {
        let e = &entries[i];
        proof {
            assert(es[i as int] == e@);
        }
        if !contains_id(&invalid, e.id) {
            let from = str_chars(e.from.as_str());
            let mut k: usize = 0;
            let mut found = false;
            while k < r.len()
                invariant
                    k <= r@.len(),
                    from@ == e.from@,
                    !found ==> forall|a: int| 0 <= a < k ==> (#[trigger] r@[a]).0@ != from@,
                    found ==> exists|a: int| 0 <= a < r@.len() && (#[trigger] r@[a]).0@ == from@,
                decreases r@.len() - k,
            {
                if !found && chars_eq(&str_chars(r[k].0.as_str()), &from) {
                    found = true;
                }
                k = k + 1;
            }
            if !found {
                let key = copy_text(&e.from);
                let fks = column_foreign_keys(entries, &invalid, &key);
                proof {
                    lemma_column_fks_has(es, es.len(), i as int);
                }
                let ghost old_r = r@;
                r.push((key, fks));
                proof {
                    assert(r@[old_r.len() as int] == (key, fks));
                    assert forall|a: int, b: int| 0 <= a < b < r@.len() implies (#[trigger] r@[a]).0@
                        != (#[trigger] r@[b]).0@ by {
                        if b == old_r.len() {
                            assert(r@[a] == old_r[a]);
                        } else {
                            assert(r@[a] == old_r[a] && r@[b] == old_r[b]);
                        }
                    }
                    assert forall|a: int|
                        0 <= a < r@.len() implies fk_views((#[trigger] r@[a]).1@) == column_fks(
                        es,
                        es.len(),
                        r@[a].0@,
                    ) && r@[a].1@.len() > 0 by {
                        if a < old_r.len() {
                            assert(r@[a] == old_r[a]);
                        }
                    }
                    assert forall|j: int|
                        0 <= j < i + 1 && fk_kept(es, #[trigger] es[j]) implies exists|a: int|
                        0 <= a < r@.len() && (#[trigger] r@[a]).0@ == es[j].from by {
                        if j < i {
                            let a = choose|a: int| 0 <= a < old_r.len() && (#[trigger] old_r[a]).0@ == es[j].from;
                            assert(r@[a] == old_r[a]);
                        } else {
                            assert(r@[old_r.len() as int].0@ == es[j].from);
                        }
                    }
                }
            }
        }
        i = i + 1;
    }
    r
}

/// A kept row of column `c` puts a foreign key into the list of `c`.
proof fn lemma_column_fks_has(es: Seq<ForeignKeyListEntryView>, n: nat, j: int)
    requires
        0 <= j < n <= es.len(),
        fk_kept(es, es[j]),
    ensures
        column_fks(es, n, es[j].from).len() > 0,
    decreases n,
{
    if j < n - 1 {
        lemma_column_fks_has(es, (n - 1) as nat, j);
    }
}

/// Whether a table has a rowid column: a table, or a virtual table, that
/// is not `WITHOUT ROWID`.
pub fn has_rowid_column(table_type: TableType, without_rowid: bool) -> (r: bool)
    ensures
        r == ((table_type == TableType::Table || table_type == TableType::Virtual) && !without_rowid),
{
    (table_type == TableType::Table || table_type == TableType::Virtual) && !without_rowid
}

/// A row of `PRAGMA table_xinfo`.
#[derive(Clone, Debug, Eq, PartialEq)]
pub struct TableXInfoRow {
    pub cid: i64,
    pub name: String,
    pub type_: String,
    pub notnull: bool,
    pub dflt_value: Option<String>,
    pub pk: bool,
    pub hidden: i64,
}

/// The column described by a row of `PRAGMA table_xinfo`: a view's columns
/// have no type, and a column is auto-increment when it is the primary
/// key of a table with an `AUTOINCREMENT` counter.
pub fn schema_column(
    row: TableXInfoRow,
    table_type: TableType,
    has_auto_increment: bool,
    foreign_keys: Vec<TableSchemaColumnForeignKey>,
) -> (r: TableSchemaColumn)
    ensures
        r.cid == row.cid,
        r.name == row.name,
        r.notnull == row.notnull,
        r.dflt_value == row.dflt_value,
        r.pk == row.pk,
        r.hidden == row.hidden,
        table_type == TableType::View ==> r.type_@ == Seq::<char>::empty(),
        table_type != TableType::View ==> r.type_ == row.type_,
        r.auto_increment == (row.pk && has_auto_increment),
        r.foreign_keys == foreign_keys,
{
    TableSchemaColumn {
        cid: row.cid,
        notnull: row.notnull,
        type_: if table_type == TableType::View {
            String::new()
        } else {
            row.type_
        },
        pk: row.pk,
        auto_increment: row.pk && has_auto_increment,
        foreign_keys,
        hidden: row.hidden,
        dflt_value: row.dflt_value,
        name: row.name,
    }
}

/// The text of the first row of a `SELECT sql ...`, if the query succeeded
/// and gave a row with text.
pub fn first_sql(rows: Option<Vec<Option<String>>>) -> (r: Option<String>)
    ensures
        r == (match rows {
            Some(v) => if v@.len() > 0 {
                v@[0]
            } else {
                None
            },
            None => None,
        }),
{
    match rows {
        Some(v) => {
            if v.len() > 0 {
                let mut v = v;
                v.swap_remove(0)
            } else {
                None
            }
        },
        None => None,
    }
}

/// The name `n`, lower-cased, is not the name of any of the columns.
pub open spec fn no_column_named(rows: Seq<TableXInfoRow>, n: Seq<char>) -> bool {
    forall|i: int| 0 <= i < rows.len() ==> unicode_lowercase((#[trigger] rows[i]).name@) != n
}

/// The first column whose lower-cased name is `n`.
pub open spec fn first_column_named(rows: Seq<TableXInfoRow>, n: Seq<char>, k: nat) -> Option<int>
    decreases rows.len() - k,
{
    if k >= rows.len() {
        None
    } else if unicode_lowercase(rows[k as int].name@) == n {
        Some(k as int)
    } else {
        first_column_named(rows, n, k + 1)
    }
}

/// The number of primary-key columns among the first `n`.
pub open spec fn pk_count(rows: Seq<TableXInfoRow>, n: nat) -> nat
    decreases n,
{
    if n == 0 || n > rows.len() {
        0
    } else {
        pk_count(rows, (n - 1) as nat) + if rows[n - 1].pk {
            1nat
        } else {
            0nat
        }
    }
}

/// Whether the column `column` of a table with the columns `rows` is its
/// rowid: `rowid`, `_rowid_` or `oid` (in any case) where no column has
/// that name; or the table's only primary key when that column's type is
/// `INTEGER` (in any case), which makes it an alias of the rowid.
pub open spec fn is_rowid_spec(column: Seq<char>, rows: Seq<TableXInfoRow>) -> bool {
    let lc = unicode_lowercase(column);
    ||| (lc == "rowid"@ && no_column_named(rows, "rowid"@))
    ||| (lc == "_rowid_"@ && no_column_named(rows, "_rowid_"@))
    ||| (lc == "oid"@ && no_column_named(rows, "oid"@))
    ||| (match first_column_named(rows, lc, 0) {
        Some(i) => unicode_lowercase(rows[i].type_@) == "integer"@ && rows[i].pk,
        None => false,
    } && pk_count(rows, rows.len()) == 1)
}

fn lower_chars(s: &String) -> (r: Vec<char>)
    ensures
        r@ == unicode_lowercase(s@),
{
    str_chars(str_to_lowercase(s.as_str()).as_str())
}

fn has_no_column_named(rows: &Vec<TableXInfoRow>, n: &str) -> (r: bool)
    ensures
        r == no_column_named(rows@, n@),
{
    let nc = str_chars(n);
    let mut i: usize = 0;
    while i < rows.len()
        invariant
            i <= rows@.len(),
            nc@ == n@,
            forall|k: int| 0 <= k < i ==> unicode_lowercase((#[trigger] rows@[k]).name@) != n@,
        decreases rows@.len() - i,
    {
        if chars_eq(&lower_chars(&rows[i].name), &nc) {
            return false;
        }
        i = i + 1;
    }
    true
}

proof fn lemma_first_column_named(rows: Seq<TableXInfoRow>, n: Seq<char>, k: nat, i: int)
    requires
        k <= i < rows.len(),
        unicode_lowercase(rows[i].name@) == n,
        forall|j: int| k <= j < i ==> unicode_lowercase((#[trigger] rows[j]).name@) != n,
    ensures
        first_column_named(rows, n, k) == Some(i),
    decreases i - k,
{
    if k < i {
        lemma_first_column_named(rows, n, k + 1, i);
    }
}

proof fn lemma_no_column_named(rows: Seq<TableXInfoRow>, n: Seq<char>, k: nat)
    requires
        k <= rows.len(),
        forall|j: int| k <= j < rows.len() ==> unicode_lowercase((#[trigger] rows[j]).name@) != n,
    ensures
        first_column_named(rows, n, k) is None,
    decreases rows.len() - k,
{
    if k < rows.len() {
        lemma_no_column_named(rows, n, k + 1);
    }
}

/// Whether the column `column` of a table with the columns `rows` is its
/// rowid (see [`is_rowid_spec`]).
pub fn is_rowid_column(column: &String, rows: &Vec<TableXInfoRow>) -> (r: bool)
    ensures
        r == is_rowid_spec(column@, rows@),
{
    let lc = lower_chars(column);
    if chars_eq(&lc, &str_chars("rowid")) && has_no_column_named(rows, "rowid") {
        return true;
    }
    if chars_eq(&lc, &str_chars("_rowid_")) && has_no_column_named(rows, "_rowid_") {
        return true;
    }
    if chars_eq(&lc, &str_chars("oid")) && has_no_column_named(rows, "oid") {
        return true;
    }
    let mut found: Option<usize> = None;
    let mut i: usize = 0;
    while i < rows.len()
        invariant
            i <= rows@.len(),
            lc@ == unicode_lowercase(column@),
            found is None ==> forall|k: int| 0 <= k < i ==> unicode_lowercase((#[trigger] rows@[k]).name@) != lc@,
            found matches Some(f) ==> first_column_named(rows@, lc@, 0) == Some(f as int) && f < rows@.len(),
        decreases rows@.len() - i,
    {
        if found.is_none() && chars_eq(&lower_chars(&rows[i].name), &lc) {
            proof {
                lemma_first_column_named(rows@, lc@, 0, i as int);
            }
            found = Some(i);
        }
        i = i + 1;
    }
    let alias = match found {
        Some(f) => chars_eq(&lower_chars(&rows[f].type_), &str_chars("integer")) && rows[f].pk,
        None => {
            proof {
                lemma_no_column_named(rows@, lc@, 0);
            }
            false
        },
    };
    if !alias {
        return false;
    }
    let mut pks: usize = 0;
    let mut j: usize = 0;
    while j < rows.len()
        invariant
            j <= rows@.len(),
            pks == pk_count(rows@, j as nat),
            pks <= j,
        decreases rows@.len() - j,
    {
        if rows[j].pk {
            pks = pks + 1;
        }
        j = j + 1;
    }
    pks == 1
}

/// The query that counts the rows of `table` whose `column` is a value.
pub open spec fn count_references_text(table: Seq<char>, column: Seq<char>) -> Seq<char> {
    "SELECT COUNT(*) FROM "@ + crate::code_lens::escaped_identifier(table) + " WHERE "@
        + crate::code_lens::escaped_identifier(column) + " IS ?"@
}

/// The query that counts the rows of `table` whose `column` is the value
/// bound to its placeholder.
pub fn count_references_query(table: &str, column: &str) -> (r: String)
    ensures
        r@ == count_references_text(table@, column@),
{
    let mut out = str_chars("SELECT COUNT(*) FROM ");
    crate::text::append_chars(&mut out, &str_chars(crate::code_lens::escape_sql_identifier(table).as_str()));
    crate::text::append_chars(&mut out, &str_chars(" WHERE "));
    crate::text::append_chars(&mut out, &str_chars(crate::code_lens::escape_sql_identifier(column).as_str()));
    crate::text::append_chars(&mut out, &str_chars(" IS ?"));
    crate::text::string_from_chars(&out)
}

} // verus!
