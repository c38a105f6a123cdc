//! MessagePack framing of query results: the headers of arrays, maps and
//! strings, and a map whose values are already encoded. A column of a
//! result is the concatenated encodings of its values; framed, it becomes
//! an array of them.
use vstd::prelude::*;

use std::rc::Rc;

use crate::records::Records;
use crate::text::string_views;

verus! {

/// `n` as two bytes, most significant first.
pub open spec fn be16(n: nat) -> Seq<u8> {
    seq![(n / 256) as u8, (n % 256) as u8]
}

/// `n` as four bytes, most significant first.
pub open spec fn be32(n: nat) -> Seq<u8> {
    seq![(n / 16777216) as u8, ((n / 65536) % 256) as u8, ((n / 256) % 256) as u8, (n % 256) as u8]
}

/// The header of an array of `n` elements: fixarray, array 16 or array 32.
pub open spec fn array_header(n: nat) -> Seq<u8> {
    if n <= 15 {
        seq![(0x90 + n) as u8]
    } else if n <= 0xffff {
        seq![0xdcu8] + be16(n)
    } else {
        seq![0xddu8] + be32(n)
    }
}

/// The header of a map of `n` entries: fixmap, map 16 or map 32.
pub open spec fn map_header(n: nat) -> Seq<u8> {
    if n <= 15 {
        seq![(0x80 + n) as u8]
    } else if n <= 0xffff {
        seq![0xdeu8] + be16(n)
    } else {
        seq![0xdfu8] + be32(n)
    }
}

/// The header of a string of `n` bytes: fixstr, str 8, str 16 or str 32.
pub open spec fn str_header(n: nat) -> Seq<u8> {
    if n <= 31 {
        seq![(0xa0 + n) as u8]
    } else if n <= 0xff {
        seq![0xd9u8, n as u8]
    } else if n <= 0xffff {
        seq![0xdau8] + be16(n)
    } else {
        seq![0xdbu8] + be32(n)
    }
}

/// A string in MessagePack: its header and its bytes in UTF-8.
pub open spec fn str_msgpack(s: Seq<char>) -> Seq<u8> {
    str_header(vstd::utf8::encode_utf8(s).len()) + vstd::utf8::encode_utf8(s)
}

fn push_be16(out: &mut Vec<u8>, n: u32)
    requires
        n <= 0xffff,
    ensures
        final(out)@ == old(out)@ + be16(n as nat),
{
    out.push((n / 256) as u8);
    out.push((n % 256) as u8);
    proof {
        assert(final(out)@ =~= old(out)@ + be16(n as nat));
    }
}

fn push_be32(out: &mut Vec<u8>, n: u32)
    ensures
        final(out)@ == old(out)@ + be32(n as nat),
{
    out.push((n / 16777216) as u8);
    out.push(((n / 65536) % 256) as u8);
    out.push(((n / 256) % 256) as u8);
    out.push((n % 256) as u8);
    proof {
        assert(final(out)@ =~= old(out)@ + be32(n as nat));
    }
}

/// Appends the header of an array of `n` elements.
pub fn push_array_header(out: &mut Vec<u8>, n: u32)
    ensures
        final(out)@ == old(out)@ + array_header(n as nat),
{
    if n <= 15 {
        out.push((0x90 + n) as u8);
        proof {
            assert(final(out)@ =~= old(out)@ + array_header(n as nat));
        }
    } else if n <= 0xffff {
        out.push(0xdc);
        push_be16(out, n);
        proof {
            assert(final(out)@ =~= old(out)@ + array_header(n as nat));
        }
    } else {
        out.push(0xdd);
        push_be32(out, n);
        proof {
            assert(final(out)@ =~= old(out)@ + array_header(n as nat));
        }
    }
}

/// Appends the header of a map of `n` entries.
pub fn push_map_header(out: &mut Vec<u8>, n: u32)
    ensures
        final(out)@ == old(out)@ + map_header(n as nat),
{
    if n <= 15 {
        out.push((0x80 + n) as u8);
        proof {
            assert(final(out)@ =~= old(out)@ + map_header(n as nat));
        }
    } else if n <= 0xffff {
        out.push(0xde);
        push_be16(out, n);
        proof {
            assert(final(out)@ =~= old(out)@ + map_header(n as nat));
        }
    } else {
        out.push(0xdf);
        push_be32(out, n);
        proof {
            assert(final(out)@ =~= old(out)@ + map_header(n as nat));
        }
    }
}

fn append_bytes(dst: &mut Vec<u8>, src: &Vec<u8>)
    ensures
        final(dst)@ == old(dst)@ + src@,
{
    let mut i: usize = 0;
    while i < src.len()
        invariant
            i <= src@.len(),
            dst@ == old(dst)@ + src@.subrange(0, i as int),
        decreases src@.len() - i,
    {
        dst.push(src[i]);
        i = i + 1;
        proof {
            assert(src@.subrange(0, i as int) =~= src@.subrange(0, i - 1).push(src@[i - 1]));
        }
    }
    proof {
        assert(src@.subrange(0, i as int) =~= src@);
    }
}

/// Appends `s` as a MessagePack string; `false`, with nothing appended,
/// when it is longer than a string may be (`u32::MAX` bytes).
pub fn push_str(out: &mut Vec<u8>, s: &str) -> (r: bool)
    ensures
        r ==> final(out)@ == old(out)@ + str_msgpack(s@),
        r <==> vstd::utf8::encode_utf8(s@).len() <= u32::MAX,
        !r ==> final(out)@ == old(out)@,
{
    let bytes = s.as_bytes_vec();
    let n = bytes.len();
    if n > 0xffff_ffff {
        return false;
    }
    let m = n as u32;
    if m <= 31 {
        out.push((0xa0 + m) as u8);
    } else if m <= 0xff {
        out.push(0xd9);
        out.push(m as u8);
    } else if m <= 0xffff {
        out.push(0xda);
        push_be16(out, m);
    } else {
        out.push(0xdb);
        push_be32(out, m);
    }
    let ghost head = out@;
    proof {
        assert(head =~= old(out)@ + str_header(n as nat));
    }
    append_bytes(out, &bytes);
    proof {
        assert(out@ =~= old(out)@ + str_msgpack(s@));
    }
    true
}

/// The entries of a map, each key a string and each value already encoded,
/// one after another.
pub open spec fn map_body(entries: Seq<(Seq<char>, Seq<u8>)>) -> Seq<u8>
    decreases entries.len(),
{
    if entries.len() == 0 {
        seq![]
    } else {
        map_body(entries.drop_last()) + str_msgpack(entries.last().0) + entries.last().1
    }
}

pub open spec fn entry_views(v: Seq<(String, Vec<u8>)>) -> Seq<(Seq<char>, Seq<u8>)> {
    v.map_values(|e: (String, Vec<u8>)| (e.0@, e.1@))
}

/// A map from strings to values that are already encoded: the map's
/// header, then each key and its value. `None` when there are more than
/// `u32::MAX` entries or a key is longer than a string may be.
pub fn map_of_encoded(entries: &Vec<(String, Vec<u8>)>) -> (r: Option<Vec<u8>>)
    ensures
        r matches Some(b) ==> entries@.len() <= u32::MAX && b@ == map_header(entries@.len()) + map_body(
            entry_views(entries@),
        ),
        r is None ==> entries@.len() > u32::MAX || exists|i: int|
            0 <= i < entries@.len() && vstd::utf8::encode_utf8((#[trigger] entries@[i]).0@).len() > u32::MAX,
{
    let ghost ev = entry_views(entries@);
    if entries.len() > 0xffff_ffff {
        return None;
    }
    let mut out: Vec<u8> = Vec::new();
    push_map_header(&mut out, entries.len() as u32);
    let ghost head = out@;
    let mut i: usize = 0;
    while i < entries.len()
        invariant
            i <= entries@.len(),
            ev == entry_views(entries@),
            out@ == head + map_body(ev.subrange(0, i as int)),
        decreases entries@.len() - i,
    {
        let ghost before = out@;
        if !push_str(&mut out, entries[i].0.as_str()) {
            return None;
        }
        append_bytes(&mut out, &entries[i].1);
        proof {
            let p = ev.subrange(0, i + 1);
            assert(p.drop_last() =~= ev.subrange(0, i as int));
            assert(p.last() == (entries@[i as int].0@, entries@[i as int].1@));
            assert(out@ =~= head + map_body(p));
        }
        i = i + 1;
    }
    proof {
        assert(ev.subrange(0, ev.len() as int) =~= ev);
    }
    Some(out)
}

/// A result as a MessagePack map: each column's name, then the array of
/// its values (whose encodings the column holds).
pub open spec fn records_body(names: Seq<Seq<char>>, cols: Seq<Seq<u8>>, n_rows: nat, k: nat) -> Seq<u8>
    decreases k,
{
    if k == 0 {
        seq![]
    } else {
        records_body(names, cols, n_rows, (k - 1) as nat) + str_msgpack(names[k - 1]) + array_header(n_rows)
            + cols[k - 1]
    }
}

pub open spec fn bytes_views(v: Seq<Vec<u8>>) -> Seq<Seq<u8>> {
    v.map_values(|c: Vec<u8>| c@)
}

fn columns_of(records: &Records) -> (r: Rc<Vec<String>>)
    ensures
        r == records.spec_columns(),
{
    records.columns()
}

/// A result as a MessagePack map from each column's name to the array of
/// its values. `None` when the number of rows is negative or does not fit
/// an array, there are fewer column buffers than names, or a name is too
/// long for a string.
pub fn records_msgpack(records: &Records) -> (r: Option<Vec<u8>>)
    ensures
        r matches Some(b) ==> {
            let names = string_views(records.spec_columns()@);
            &&& 0 <= records.spec_n_rows() <= u32::MAX
            &&& names.len() <= u32::MAX
            &&& names.len() <= records.spec_col_buf().len()
            &&& b@ == map_header(names.len()) + records_body(
                names,
                bytes_views(records.spec_col_buf()),
                records.spec_n_rows() as nat,
                names.len(),
            )
        },
        (0 <= records.spec_n_rows() <= u32::MAX && records.spec_columns()@.len() <= u32::MAX
            && records.spec_columns()@.len() <= records.spec_col_buf().len() && forall|i: int|
            0 <= i < records.spec_columns()@.len() ==> vstd::utf8::encode_utf8(
                (#[trigger] records.spec_columns()@[i])@,
            ).len() <= u32::MAX) ==> r is Some,
{
    let columns = columns_of(records);
    let names: &Vec<String> = &*columns;
    let cols = records.col_buf();
    let n_rows = records.n_rows();
    if n_rows < 0 || n_rows > 0xffff_ffff || names.len() > 0xffff_ffff || names.len() > cols.len() {
        return None;
    }
    let ghost nv = string_views(names@);
    let ghost cv = bytes_views(cols@);
    let mut out: Vec<u8> = Vec::new();
    push_map_header(&mut out, names.len() as u32);
    let ghost head = out@;
    let mut i: usize = 0;
    while i < names.len()
        invariant
            i <= names@.len(),
            names@ == records.spec_columns()@,
            names@.len() <= cols@.len(),
            0 <= n_rows <= u32::MAX,
            nv == string_views(names@),
            cv == bytes_views(cols@),
            out@ == head + records_body(nv, cv, n_rows as nat, i as nat),
            forall|k: int| 0 <= k < i ==> vstd::utf8::encode_utf8((#[trigger] names@[k])@).len() <= u32::MAX,
        decreases names@.len() - i,
    {
        if !push_str(&mut out, names[i].as_str()) {
            return None;
        }
        push_array_header(&mut out, n_rows as u32);
        append_bytes(&mut out, &cols[i]);
        proof {
            assert(nv[i as int] == names@[i as int]@);
            assert(cv[i as int] == cols@[i as int]@);
            assert(out@ =~= head + records_body(nv, cv, n_rows as nat, (i + 1) as nat));
        }
        i = i + 1;
    }
    Some(out)
}

} // verus!
