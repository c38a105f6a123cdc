//! Importing a table from JSON records: the columns are the keys of the
//! first record, the table is created with one untyped column each, and
//! every record must have a value for every column.
use vstd::prelude::*;

use crate::code_lens::{escape_sql_identifier, escaped_identifier};
use crate::commands::{join_comma, lemma_join_comma_push};
use crate::pager::{copy_param, CacheParam, CacheParamView};
use crate::split_statements::{decimal_chars, decimal_text};
use crate::text::{append_chars, chars_eq, str_chars, string_from_chars};

verus! {

/// A record as the editor reads it from JSON: its keys and values, in the
/// order in which they came.
pub open spec fn record_view(record: Seq<(String, CacheParam)>) -> Seq<(Seq<char>, CacheParamView)> {
    record.map_values(|e: (String, CacheParam)| (e.0@, e.1@))
}

pub open spec fn keys_of(record: Seq<(Seq<char>, CacheParamView)>) -> Seq<Seq<char>> {
    record.map_values(|e: (Seq<char>, CacheParamView)| e.0)
}

/// The value of the first entry of `record` under `key`.
pub open spec fn lookup(record: Seq<(Seq<char>, CacheParamView)>, key: Seq<char>) -> Option<CacheParamView>
    decreases record.len(),
{
    if record.len() == 0 {
        None
    } else if record[0].0 == key {
        Some(record[0].1)
    } else {
        lookup(record.drop_first(), key)
    }
}

pub open spec fn no_data_message() -> Seq<char> {
    "No data present."@
}

pub open spec fn no_columns_message() -> Seq<char> {
    "No column headers present."@
}

/// The columns of an import: the keys of the first record; an error when
/// there is no record or the first has no key.
pub open spec fn json_import_columns_spec(records: Seq<Seq<(Seq<char>, CacheParamView)>>) -> Result<
    Seq<Seq<char>>,
    Seq<char>,
> {
    if records.len() == 0 {
        Err(no_data_message())
    } else if records[0].len() == 0 {
        Err(no_columns_message())
    } else {
        Ok(keys_of(records[0]))
    }
}

/// The columns of a JSON import (see [`json_import_columns_spec`]).
pub fn json_import_columns(records: &Vec<Vec<(String, CacheParam)>>) -> (r: Result<Vec<String>, String>)
    ensures
        match json_import_columns_spec(records@.map_values(|rec: Vec<(String, CacheParam)>| record_view(rec@))) {
            Ok(cols) => r matches Ok(c) && c@.map_values(|s: String| s@) == cols,
            Err(m) => r matches Err(e) && e@ == m,
        },
{
    if records.len() == 0 {
        let m = "No data present.";
        return Err(string_from_chars(&str_chars(m)));
    }
    let first = &records[0];
    if first.len() == 0 {
        let m = "No column headers present.";
        return Err(string_from_chars(&str_chars(m)));
    }
    let ghost rv = record_view(first@);
    let mut cols: Vec<String> = Vec::new();
    let mut i: usize = 0;
    while i < first.len()
        invariant
            i <= first@.len(),
            rv == record_view(first@),
            cols@.map_values(|s: String| s@) == keys_of(rv).subrange(0, i as int),
        decreases first.len() - i,
    {
        let key = string_from_chars(&str_chars(first[i].0.as_str()));
        let ghost before = cols@;
        cols.push(key);
        proof {
            assert(rv[i as int].0 == first@[i as int].0@);
            assert(keys_of(rv)[i as int] == rv[i as int].0);
            assert(cols@.map_values(|s: String| s@) =~= before.map_values(|s: String| s@).push(key@));
            assert(keys_of(rv).subrange(0, i + 1) =~= keys_of(rv).subrange(0, i as int).push(keys_of(rv)[i as int]));
        }
        i = i + 1;
    }
    proof {
        assert(keys_of(rv).subrange(0, first@.len() as int) =~= keys_of(rv));
        let all = records@.map_values(|rec: Vec<(String, CacheParam)>| record_view(rec@));
        assert(all[0] == rv);
    }
    Ok(cols)
}

/// The escaped column names, joined by `, `.
pub open spec fn escaped_columns(columns: Seq<Seq<char>>) -> Seq<char> {
    join_comma(columns.map_values(|c: Seq<char>| escaped_identifier(c)))
}

/// `CREATE TABLE table(c1, c2, ...)`, names escaped, columns untyped.
pub open spec fn json_create_text(table: Seq<char>, columns: Seq<Seq<char>>) -> Seq<char> {
    "CREATE TABLE "@ + escaped_identifier(table) + seq!['('] + escaped_columns(columns) + seq![')']
}

/// `INSERT INTO table (c1, c2, ...) VALUES (?, ?, ...)`, names escaped.
pub open spec fn json_insert_text(table: Seq<char>, columns: Seq<Seq<char>>) -> Seq<char> {
    "INSERT INTO "@ + escaped_identifier(table) + " ("@ + escaped_columns(columns) + ") VALUES ("@
        + join_comma(Seq::new(columns.len(), |i: int| seq!['?'])) + seq![')']
}

fn escaped_column_list(columns: &Vec<String>) -> (r: Vec<char>)
    ensures
        r@ == escaped_columns(columns@.map_values(|c: String| c@)),
{
    let ghost cv = columns@.map_values(|c: String| c@);
    let ghost parts = cv.map_values(|c: Seq<char>| escaped_identifier(c));
    let mut body: Vec<char> = Vec::new();
    let mut i: usize = 0;
    while i < columns.len()
        invariant
            i <= columns@.len(),
            cv == columns@.map_values(|c: String| c@),
            parts == cv.map_values(|c: Seq<char>| escaped_identifier(c)),
            body@ == join_comma(parts.subrange(0, i as int)),
        decreases columns@.len() - i,
    {
        if i > 0 {
            body.push(',');
            body.push(' ');
        }
        let c = str_chars(escape_sql_identifier(columns[i].as_str()).as_str());
        append_chars(&mut body, &c);
        proof {
            assert(parts.subrange(0, i + 1) =~= parts.subrange(0, i as int).push(parts[i as int]));
            lemma_join_comma_push(parts.subrange(0, i as int), parts[i as int]);
            assert(cv[i as int] == columns@[i as int]@);
            assert(body@ =~= join_comma(parts.subrange(0, i + 1)));
        }
        i = i + 1;
    }
    proof {
        assert(parts.subrange(0, parts.len() as int) =~= parts);
    }
    body
}

fn placeholder_list(n: usize) -> (r: Vec<char>)
    ensures
        r@ == join_comma(Seq::new(n as nat, |i: int| seq!['?'])),
{
    let ghost parts = Seq::new(n as nat, |i: int| seq!['?']);
    let mut body: Vec<char> = Vec::new();
    let mut i: usize = 0;
    while i < n
        invariant
            i <= n,
            parts == Seq::new(n as nat, |i: int| seq!['?']),
            body@ == join_comma(parts.subrange(0, i as int)),
        decreases n - i,
    {
        if i > 0 {
            body.push(',');
            body.push(' ');
        }
        body.push('?');
        proof {
            assert(parts.subrange(0, i + 1) =~= parts.subrange(0, i as int).push(parts[i as int]));
            lemma_join_comma_push(parts.subrange(0, i as int), parts[i as int]);
            assert(body@ =~= join_comma(parts.subrange(0, i + 1)));
        }
        i = i + 1;
    }
    proof {
        assert(parts.subrange(0, n as int) =~= parts);
    }
    body
}

/// The `CREATE TABLE` and `INSERT` statements of a JSON import into
/// `table` with `columns`.
pub fn json_import_statements(table: &str, columns: &Vec<String>) -> (r: (String, String))
    ensures
        r.0@ == json_create_text(table@, columns@.map_values(|c: String| c@)),
        r.1@ == json_insert_text(table@, columns@.map_values(|c: String| c@)),
{
    let ghost cv = columns@.map_values(|c: String| c@);
    let t = str_chars(escape_sql_identifier(table).as_str());
    let list = escaped_column_list(columns);

    let mut create = str_chars("CREATE TABLE ");
    append_chars(&mut create, &t);
    create.push('(');
    append_chars(&mut create, &list);
    create.push(')');

    let mut insert = str_chars("INSERT INTO ");
    append_chars(&mut insert, &t);
    let open = str_chars(" (");
    append_chars(&mut insert, &open);
    append_chars(&mut insert, &list);
    let values = str_chars(") VALUES (");
    append_chars(&mut insert, &values);
    let marks = placeholder_list(columns.len());
    append_chars(&mut insert, &marks);
    insert.push(')');
    proof {
        assert(cv.len() == columns@.len());
        assert(create@ =~= json_create_text(table@, cv));
        assert(insert@ =~= json_insert_text(table@, cv));
    }
    (string_from_chars(&create), string_from_chars(&insert))
}

/// The message for a record that lacks a column: `The row <n> does not
/// have the column '<column>'.`, counting rows from 1.
pub open spec fn missing_column_message(row_number: nat, column: Seq<char>) -> Seq<char> {
    "The row "@ + decimal_text(row_number) + " does not have the column '"@ + column + "'."@
}

/// The values of one record in the order of `columns`; an error naming the
/// first column that the record lacks.
pub open spec fn json_import_row_spec(
    record: Seq<(Seq<char>, CacheParamView)>,
    columns: Seq<Seq<char>>,
    row_number: nat,
) -> Result<Seq<CacheParamView>, Seq<char>>
    decreases columns.len(),
{
    if columns.len() == 0 {
        Ok(seq![])
    } else {
        match json_import_row_spec(record, columns.drop_last(), row_number) {
            Err(m) => Err(m),
            Ok(vals) => match lookup(record, columns.last()) {
                None => Err(missing_column_message(row_number, columns.last())),
                Some(v) => Ok(vals.push(v)),
            },
        }
    }
}

proof fn lemma_row_error_stays(
    record: Seq<(Seq<char>, CacheParamView)>,
    columns: Seq<Seq<char>>,
    k: nat,
    j: nat,
    n: nat,
)
    requires
        k <= j <= columns.len(),
        json_import_row_spec(record, columns.subrange(0, k as int), n) is Err,
    ensures
        json_import_row_spec(record, columns.subrange(0, j as int), n) == json_import_row_spec(
            record,
            columns.subrange(0, k as int),
            n,
        ),
    decreases j - k,
{
    if j > k {
        lemma_row_error_stays(record, columns, k, (j - 1) as nat, n);
        assert(columns.subrange(0, j as int).drop_last() =~= columns.subrange(0, j - 1));
    }
}

/// An imported row holds one value per column, in the order of the
/// columns: the value that the record has under that column's name.
pub proof fn law_import_row_has_the_value_of_each_column(
    record: Seq<(Seq<char>, CacheParamView)>,
    columns: Seq<Seq<char>>,
    row_number: nat,
)
    requires
        json_import_row_spec(record, columns, row_number) is Ok,
    ensures
        ({
            let vals = json_import_row_spec(record, columns, row_number)->Ok_0;
            &&& vals.len() == columns.len()
            &&& forall|i: int| 0 <= i < columns.len() ==> lookup(record, #[trigger] columns[i]) == Some(vals[i])
        }),
    decreases columns.len(),
{
    if columns.len() > 0 {
        let prefix = columns.drop_last();
        law_import_row_has_the_value_of_each_column(record, prefix, row_number);
        let vals = json_import_row_spec(record, columns, row_number)->Ok_0;
        let before = json_import_row_spec(record, prefix, row_number)->Ok_0;
        assert forall|i: int| 0 <= i < columns.len() implies lookup(record, #[trigger] columns[i]) == Some(vals[i]) by {
            if i < columns.len() - 1 {
                assert(columns[i] == prefix[i]);
                assert(vals[i] == before[i]);
            }
        }
    }
}

fn find_value(record: &Vec<(String, CacheParam)>, key: &str) -> (r: Option<CacheParam>)
    ensures
        match lookup(record_view(record@), key@) {
            None => r is None,
            Some(v) => r matches Some(p) && p@ == v,
        },
{
    let ghost rv = record_view(record@);
    let k = str_chars(key);
    let mut i: usize = 0;
    proof {
        assert(rv.subrange(0, rv.len() as int) =~= rv);
    }
    while i < record.len()
        invariant
            i <= record@.len(),
            rv == record_view(record@),
            k@ == key@,
            lookup(rv, key@) == lookup(rv.subrange(i as int, rv.len() as int), key@),
        decreases record.len() - i,
    {
        let entry_key = str_chars(record[i].0.as_str());
        proof {
            let rest = rv.subrange(i as int, rv.len() as int);
            assert(rest[0] == rv[i as int]);
            assert(rest.drop_first() =~= rv.subrange(i + 1, rv.len() as int));
        }
        if chars_eq(&entry_key, &k) {
            return Some(copy_param(&record[i].1));
        }
        i = i + 1;
    }
    None
}

/// The values of the record at `row_index` (counted from 0) for `columns`
/// (see [`json_import_row_spec`], which counts rows from 1).
pub fn json_import_row(record: &Vec<(String, CacheParam)>, columns: &Vec<String>, row_index: u64) -> (r:
    Result<Vec<CacheParam>, String>)
    requires
        row_index < u64::MAX,
    ensures
        match json_import_row_spec(
            record_view(record@),
            columns@.map_values(|c: String| c@),
            row_index as nat + 1,
        ) {
            Ok(vals) => r matches Ok(v) && v@.map_values(|p: CacheParam| p@) == vals,
            Err(m) => r matches Err(e) && e@ == m,
        },
{
    let ghost rv = record_view(record@);
    let ghost cv = columns@.map_values(|c: String| c@);
    let ghost n: nat = row_index as nat + 1;
    let mut values: Vec<CacheParam> = Vec::new();
    let mut i: usize = 0;
    proof {
        assert(cv.subrange(0, 0) =~= Seq::<Seq<char>>::empty());
        assert(values@.map_values(|p: CacheParam| p@) =~= Seq::<CacheParamView>::empty());
    }
    while i < columns.len()
        invariant
            i <= columns@.len(),
            rv == record_view(record@),
            cv == columns@.map_values(|c: String| c@),
            n == row_index as nat + 1,
            row_index < u64::MAX,
            json_import_row_spec(rv, cv.subrange(0, i as int), n) == Ok::<Seq<CacheParamView>, Seq<char>>(
                values@.map_values(|p: CacheParam| p@),
            ),
        decreases columns.len() - i,
    {
        let found = find_value(record, columns[i].as_str());
        proof {
            let sub = cv.subrange(0, i + 1);
            assert(sub.drop_last() =~= cv.subrange(0, i as int));
            assert(sub.last() == columns@[i as int]@);
        }
        match found {
            Some(v) => {
                let ghost before = values@;
                values.push(v);
                proof {
                    assert(values@.map_values(|p: CacheParam| p@) =~= before.map_values(|p: CacheParam| p@).push(
                        v@,
                    ));
                }
            },
            None => {
                let number = decimal_chars(row_index + 1);
                let mut m = str_chars("The row ");
                append_chars(&mut m, &number);
                let mid = str_chars(" does not have the column '");
                append_chars(&mut m, &mid);
                let col = str_chars(columns[i].as_str());
                append_chars(&mut m, &col);
                let tail = str_chars("'.");
                append_chars(&mut m, &tail);
                proof {
                    assert(m@ =~= missing_column_message(n, cv[i as int]));
                    lemma_row_error_stays(rv, cv, i as nat + 1, cv.len(), n);
                    assert(cv.subrange(0, cv.len() as int) =~= cv);
                }
                return Err(string_from_chars(&m));
            },
        }
        i = i + 1;
    }
    proof {
        assert(cv.subrange(0, columns@.len() as int) =~= cv);
    }
    Ok(values)
}

} // verus!
