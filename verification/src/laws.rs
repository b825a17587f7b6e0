//! The decoder's laws, proved against the wire grammar.
//!
//! The central law is round-trip identity: decoding the encoding of any
//! well-formed result reproduces that result exactly, whatever bytes
//! follow it. Beside it stand the equivalence of the two metadata wire
//! forms (shared versus per-column table identity), and the rejection
//! laws for negative counts, unknown tags and the null cell sentinel.

use vstd::arithmetic::div_mod::{
    lemma_div_denominator, lemma_div_pos_is_pos, lemma_fundamental_div_mod, lemma_mod_bound,
};
use vstd::prelude::*;
use vstd::utf8::{
    encode_utf8, encode_utf8_decode_utf8, encode_utf8_valid_utf8, is_ascii_chars_encode_utf8,
    is_ascii_chars_nat_bound,
};

use crate::cursor::{
    be_to_i32, be_to_u16, sr_bytes, sr_bytes_opt, sr_i32, sr_short_bytes, sr_string, sr_u16,
};
use crate::error::DecodeError;
use crate::result::ColumnType;
use crate::wire::{
    be16, cell_ok, col_specs_ok, col_types, is_ascii_bytes, metadata_ok, prepared_metadata_ok,
    prepared_ok, result_ok, row_ok, rows_ok, sd_cells, sd_col_specs, sd_message,
    sd_prepared, sd_prepared_metadata, sd_result_metadata, sd_row_list, sd_rows, sd_set_elems,
    sd_table_spec, sd_type, sd_u16_list, sd_value, se_bytes, se_cells_from, se_col_specs_from,
    se_elems_from, se_i32, se_message, se_prepared, se_prepared_metadata, se_result_metadata,
    se_result_metadata_global, se_rows_body, se_rows_from, se_short_bytes, se_string,
    se_table_spec, se_type, se_u16_list_from, se_value, table_spec_ok, value_ok, CQLValueV,
    ColumnSpecV, PreparedMetadataV, PreparedV, ResultMetadataV, RowV, RowsV, ServerResultV,
    TableSpecV,
};

verus! {

/// The four big-endian bytes of an unsigned 32-bit value recompose to it.
proof fn lemma_be32_recompose(u: int)
    requires
        0 <= u < 0x1_0000_0000,
    ensures
        (u / 0x100_0000 % 0x100) * 0x100_0000 + (u / 0x1_0000 % 0x100) * 0x1_0000 + (u / 0x100
            % 0x100) * 0x100 + u % 0x100 == u,
        0 <= u / 0x100_0000 % 0x100 < 0x100,
        0 <= u / 0x1_0000 % 0x100 < 0x100,
        0 <= u / 0x100 % 0x100 < 0x100,
        0 <= u % 0x100 < 0x100,
{
    lemma_fundamental_div_mod(u, 0x100);
    lemma_fundamental_div_mod(u / 0x100, 0x100);
    lemma_div_denominator(u, 0x100, 0x100);
    lemma_fundamental_div_mod(u / 0x1_0000, 0x100);
    lemma_div_denominator(u, 0x1_0000, 0x100);
    lemma_mod_bound(u, 0x100);
    lemma_mod_bound(u / 0x100, 0x100);
    lemma_mod_bound(u / 0x1_0000, 0x100);
    lemma_div_pos_is_pos(u, 0x100);
    lemma_div_pos_is_pos(u / 0x100, 0x100);
    lemma_div_pos_is_pos(u / 0x1_0000, 0x100);
    assert(u / 0x100_0000 < 0x100) by (nonlinear_arith)
        requires
            0 <= u < 0x1_0000_0000,
    ;
    lemma_div_pos_is_pos(u / 0x100_0000, 1);
    assert(u / 0x100_0000 >= 0) by (nonlinear_arith)
        requires
            u >= 0,
    ;
    lemma_fundamental_div_mod(u / 0x100_0000, 0x100);
    lemma_mod_bound(u / 0x100_0000, 0x100);
}

/// Reading a `u16` from its two big-endian bytes gives it back, leaving
/// the following bytes untouched.
pub proof fn lemma_be16_roundtrip(n: u16, rest: Seq<u8>)
    ensures
        sr_u16(be16(n) + rest) == Ok::<_, DecodeError>((n, rest)),
{
    let s = be16(n) + rest;
    lemma_fundamental_div_mod(n as int, 0x100);
    lemma_mod_bound(n as int, 0x100);
    lemma_div_pos_is_pos(n as int, 0x100);
    assert(n as int / 0x100 < 0x100) by (nonlinear_arith)
        requires
            0 <= (n as int) < 0x1_0000,
    ;
    assert(be_to_u16(s[0], s[1]) == n);
    assert(s.skip(2) =~= rest);
}

/// Reading an `i32` from its four big-endian two's-complement bytes gives
/// it back.
pub proof fn lemma_se_i32_roundtrip(x: i32, rest: Seq<u8>)
    ensures
        sr_i32(se_i32(x) + rest) == Ok::<_, DecodeError>((x, rest)),
{
    let u = if x < 0 {
        x as int + 0x1_0000_0000
    } else {
        x as int
    };
    lemma_be32_recompose(u);
    let s = se_i32(x) + rest;
    assert(be_to_i32(s[0], s[1], s[2], s[3]) == x as int);
    assert(s.skip(4) =~= rest);
}

/// Reading a string from its encoding gives it back.
pub proof fn lemma_se_string_roundtrip(cs: Seq<char>, rest: Seq<u8>)
    requires
        encode_utf8(cs).len() <= 0xFFFF,
    ensures
        sr_string(se_string(cs) + rest) == Ok::<_, DecodeError>((cs, rest)),
{
    broadcast use encode_utf8_valid_utf8, encode_utf8_decode_utf8;

    let eb = encode_utf8(cs);
    let n = eb.len() as u16;
    lemma_be16_roundtrip(n, eb + rest);
    assert(se_string(cs) + rest =~= be16(n) + (eb + rest));
    assert((eb + rest).take(n as int) =~= eb);
    assert((eb + rest).skip(n as int) =~= rest);
}

/// Reading a blob from its length-prefixed encoding gives it back.
pub proof fn lemma_se_bytes_roundtrip(b: Seq<u8>, rest: Seq<u8>)
    requires
        b.len() <= 0x7FFF_FFFF,
    ensures
        sr_bytes(se_bytes(b) + rest) == Ok::<_, DecodeError>((b, rest)),
        sr_bytes_opt(se_bytes(b) + rest) == Ok::<_, DecodeError>((Some(b), rest)),
{
    lemma_se_i32_roundtrip(b.len() as i32, b + rest);
    assert(se_bytes(b) + rest =~= se_i32(b.len() as i32) + (b + rest));
    assert((b + rest).take(b.len() as int) =~= b);
    assert((b + rest).skip(b.len() as int) =~= rest);
}

/// The null sentinel decodes to an absent cell; a present blob — the empty
/// one included — decodes to a present cell. Null is therefore distinct
/// from every present value.
pub proof fn lemma_null_cell_distinct(b: Seq<u8>, rest: Seq<u8>)
    requires
        b.len() <= 0x7FFF_FFFF,
    ensures
        sr_bytes_opt(se_i32(-1i32) + rest) == Ok::<_, DecodeError>((None::<Seq<u8>>, rest)),
        sr_bytes_opt(se_bytes(b) + rest) == Ok::<_, DecodeError>((Some(b), rest)),
{
    lemma_se_i32_roundtrip(-1i32, rest);
    lemma_se_bytes_roundtrip(b, rest);
}

/// Reading a short blob from its length-prefixed encoding gives it back.
pub proof fn lemma_se_short_bytes_roundtrip(b: Seq<u8>, rest: Seq<u8>)
    requires
        b.len() <= 0xFFFF,
    ensures
        sr_short_bytes(se_short_bytes(b) + rest) == Ok::<_, DecodeError>((b, rest)),
{
    lemma_be16_roundtrip(b.len() as u16, b + rest);
    assert(se_short_bytes(b) + rest =~= be16(b.len() as u16) + (b + rest));
    assert((b + rest).take(b.len() as int) =~= b);
    assert((b + rest).skip(b.len() as int) =~= rest);
}

/// Reading a type descriptor from its encoding gives it back.
pub proof fn lemma_se_type_roundtrip(t: ColumnType, rest: Seq<u8>)
    ensures
        sd_type(se_type(t) + rest) == Ok::<_, DecodeError>((t, rest)),
    decreases t,
{
    match t {
        ColumnType::Ascii => {
            lemma_be16_roundtrip(0x0001, rest);
        },
        ColumnType::Int => {
            lemma_be16_roundtrip(0x0009, rest);
        },
        ColumnType::Text => {
            lemma_be16_roundtrip(0x000D, rest);
        },
        ColumnType::SetOf(e) => {
            lemma_be16_roundtrip(0x0022, se_type(*e) + rest);
            assert(se_type(t) + rest =~= be16(0x0022) + (se_type(*e) + rest));
            lemma_se_type_roundtrip(*e, rest);
        },
    }
}

/// Reading a table identity from its encoding gives it back.
pub proof fn lemma_se_table_spec_roundtrip(ts: TableSpecV, rest: Seq<u8>)
    requires
        table_spec_ok(ts),
    ensures
        sd_table_spec(se_table_spec(ts) + rest) == Ok::<_, DecodeError>((ts, rest)),
{
    lemma_se_string_roundtrip(ts.ks_name, se_string(ts.table_name) + rest);
    assert(se_table_spec(ts) + rest =~= se_string(ts.ks_name) + (se_string(ts.table_name)
        + rest));
    lemma_se_string_roundtrip(ts.table_name, rest);
    assert(TableSpecV { ks_name: ts.ks_name, table_name: ts.table_name } =~= ts);
}

/// Reading the column specs back from their encoding, from index `i` on,
/// gives the same specs — whether each column carries its own identity or
/// all share the identity `shared`.
#[verifier::rlimit(100)]
pub proof fn lemma_se_col_specs_roundtrip(
    specs: Seq<ColumnSpecV>,
    i: int,
    shared: Option<TableSpecV>,
    rest: Seq<u8>,
)
    requires
        0 <= i <= specs.len(),
        col_specs_ok(specs),
        match shared {
            Some(ts) => forall|j: int| 0 <= j < specs.len() ==> (#[trigger] specs[j]).table_spec
                == ts,
            None => true,
        },
    ensures
        sd_col_specs(
            se_col_specs_from(specs, i, shared is Some) + rest,
            shared,
            (specs.len() - i) as nat,
        ) == Ok::<_, DecodeError>((specs.skip(i), rest)),
    decreases specs.len() - i,
{
    let global = shared is Some;
    if i == specs.len() {
        assert(se_col_specs_from(specs, i, global) + rest =~= rest);
        assert(specs.skip(i) =~= Seq::<ColumnSpecV>::empty());
    } else {
        let a = if global {
            Seq::<u8>::empty()
        } else {
            se_table_spec(specs[i].table_spec)
        };
        let b = se_string(specs[i].name);
        let c = se_type(specs[i].typ);
        let d = se_col_specs_from(specs, i + 1, global);
        assert(se_col_specs_from(specs, i, global) == a + b + c + d);
        let s_name = b + (c + (d + rest));
        assert((a + b + c + d) + rest =~= a + s_name) by {
            assert(b + c + d + rest =~= s_name);
        }
        lemma_se_string_roundtrip(specs[i].name, c + (d + rest));
        lemma_se_type_roundtrip(specs[i].typ, d + rest);
        lemma_se_col_specs_roundtrip(specs, i + 1, shared, rest);
        match shared {
            Some(ts) => {
                assert(a + s_name =~= s_name);
            },
            None => {
                lemma_se_table_spec_roundtrip(specs[i].table_spec, s_name);
            },
        }
        assert(ColumnSpecV {
            table_spec: specs[i].table_spec,
            name: specs[i].name,
            typ: specs[i].typ,
        } =~= specs[i]);
        assert(seq![specs[i]] + specs.skip(i + 1) =~= specs.skip(i));
    }
}

/// Reading the bind-index entries back from their encoding, from index
/// `i` on, gives the same entries.
pub proof fn lemma_se_u16_list_roundtrip(xs: Seq<u16>, i: int, rest: Seq<u8>)
    requires
        0 <= i <= xs.len(),
    ensures
        sd_u16_list(se_u16_list_from(xs, i) + rest, (xs.len() - i) as nat) == Ok::<
            _,
            DecodeError,
        >((xs.skip(i), rest)),
    decreases xs.len() - i,
{
    if i == xs.len() {
        assert(se_u16_list_from(xs, i) + rest =~= rest);
        assert(xs.skip(i) =~= Seq::<u16>::empty());
    } else {
        lemma_be16_roundtrip(xs[i], se_u16_list_from(xs, i + 1) + rest);
        assert(se_u16_list_from(xs, i) + rest =~= be16(xs[i]) + (se_u16_list_from(xs, i + 1)
            + rest));
        lemma_se_u16_list_roundtrip(xs, i + 1, rest);
        assert(seq![xs[i]] + xs.skip(i + 1) =~= xs.skip(i));
    }
}

/// Shared-identity optimization equivalence: well-formed result metadata
/// decodes to the same value from either of its two wire forms — the
/// shared identity carried once under the "global table spec" flag, or
/// the same identity carried by every column.
#[verifier::rlimit(100)]
pub proof fn lemma_shared_identity_equivalence(m: ResultMetadataV, ts: TableSpecV, rest: Seq<u8>)
    requires
        metadata_ok(m),
        table_spec_ok(ts),
        forall|j: int| 0 <= j < m.col_specs.len() ==> (#[trigger] m.col_specs[j]).table_spec == ts,
    ensures
        sd_result_metadata(se_result_metadata_global(m, ts) + rest) == Ok::<_, DecodeError>((
            m,
            rest,
        )),
        sd_result_metadata(se_result_metadata(m) + rest) == Ok::<_, DecodeError>((m, rest)),
{
    lemma_se_result_metadata_roundtrip(m, rest);
    let cc = m.col_count as i32;
    let specs_bytes = se_col_specs_from(m.col_specs, 0, true);
    lemma_se_i32_roundtrip(1i32, se_i32(cc) + (se_table_spec(ts) + (specs_bytes + rest)));
    lemma_se_i32_roundtrip(cc, se_table_spec(ts) + (specs_bytes + rest));
    assert(se_result_metadata_global(m, ts) + rest =~= se_i32(1i32) + (se_i32(cc) + (
    se_table_spec(ts) + (specs_bytes + rest))));
    assert(1i32 & 0x0002i32 == 0) by (bit_vector);
    assert(1i32 & 0x0004i32 == 0) by (bit_vector);
    assert(1i32 & 0x0001i32 == 1) by (bit_vector);
    lemma_se_table_spec_roundtrip(ts, specs_bytes + rest);
    lemma_se_col_specs_roundtrip(m.col_specs, 0, Some(ts), rest);
    assert(m.col_specs.skip(0) =~= m.col_specs);
    assert(ResultMetadataV { col_count: cc as int, col_specs: m.col_specs } =~= m);
}

/// Reading result metadata back from its per-column encoding gives it
/// back.
#[verifier::rlimit(100)]
pub proof fn lemma_se_result_metadata_roundtrip(m: ResultMetadataV, rest: Seq<u8>)
    requires
        metadata_ok(m),
    ensures
        sd_result_metadata(se_result_metadata(m) + rest) == Ok::<_, DecodeError>((m, rest)),
{
    let cc = m.col_count as i32;
    let specs_bytes = se_col_specs_from(m.col_specs, 0, false);
    lemma_se_i32_roundtrip(0i32, se_i32(cc) + (specs_bytes + rest));
    lemma_se_i32_roundtrip(cc, specs_bytes + rest);
    assert(se_result_metadata(m) + rest =~= se_i32(0i32) + (se_i32(cc) + (specs_bytes + rest)));
    assert(0i32 & 0x0002i32 == 0) by (bit_vector);
    assert(0i32 & 0x0004i32 == 0) by (bit_vector);
    assert(0i32 & 0x0001i32 == 0) by (bit_vector);
    lemma_se_col_specs_roundtrip(m.col_specs, 0, None, rest);
    assert(m.col_specs.skip(0) =~= m.col_specs);
    assert(ResultMetadataV { col_count: cc as int, col_specs: m.col_specs } =~= m);
}

/// Reading prepared metadata back from its encoding gives it back.
#[verifier::rlimit(100)]
pub proof fn lemma_se_prepared_metadata_roundtrip(m: PreparedMetadataV, rest: Seq<u8>)
    requires
        prepared_metadata_ok(m),
    ensures
        sd_prepared_metadata(se_prepared_metadata(m) + rest) == Ok::<_, DecodeError>((m, rest)),
{
    let cc = m.col_count as i32;
    let pkc = m.pk_indexes.len() as i32;
    let pk_bytes = se_u16_list_from(m.pk_indexes, 0);
    let specs_bytes = se_col_specs_from(m.col_specs, 0, false);
    lemma_se_i32_roundtrip(
        0i32,
        se_i32(cc) + (se_i32(pkc) + (pk_bytes + (specs_bytes + rest))),
    );
    lemma_se_i32_roundtrip(cc, se_i32(pkc) + (pk_bytes + (specs_bytes + rest)));
    lemma_se_i32_roundtrip(pkc, pk_bytes + (specs_bytes + rest));
    assert(se_prepared_metadata(m) + rest =~= se_i32(0i32) + (se_i32(cc) + (se_i32(pkc) + (
    pk_bytes + (specs_bytes + rest)))));
    lemma_se_u16_list_roundtrip(m.pk_indexes, 0, specs_bytes + rest);
    assert(m.pk_indexes.skip(0) =~= m.pk_indexes);
    assert(0i32 & 0x0001i32 == 0) by (bit_vector);
    lemma_se_col_specs_roundtrip(m.col_specs, 0, None, rest);
    assert(m.col_specs.skip(0) =~= m.col_specs);
    assert(PreparedMetadataV {
        col_count: cc as int,
        pk_indexes: m.pk_indexes,
        col_specs: m.col_specs,
    } =~= m);
}

/// Decoding a value blob built from a well-formed value gives the value
/// back, nested sets included, in the order encoded.
#[verifier::rlimit(100)]
pub proof fn lemma_se_value_roundtrip(v: CQLValueV, t: ColumnType)
    requires
        value_ok(v, t),
    ensures
        sd_value(t, se_value(v)) == Ok::<_, DecodeError>(v),
    decreases v, 0int,
{
    broadcast use encode_utf8_valid_utf8, encode_utf8_decode_utf8;

    match v {
        CQLValueV::Ascii(cs) => {
            let eb = encode_utf8(cs);
            is_ascii_chars_encode_utf8(cs);
            is_ascii_chars_nat_bound(cs);
            assert forall|k: int| 0 <= k < eb.len() implies eb[k] <= 0x7f by {
                assert(eb[k] == cs[k] as u8);
                assert((cs.index(k) as nat) < 128);
            }
            assert(is_ascii_bytes(eb));
        },
        CQLValueV::Int(x) => {
            lemma_se_i32_roundtrip(x, Seq::<u8>::empty());
            assert(se_i32(x) + Seq::<u8>::empty() =~= se_i32(x));
            assert(se_value(v).len() == 4);
        },
        CQLValueV::Text(_) => {},
        CQLValueV::SetOf(vs) => {
            let n = vs.len() as i32;
            let elems_bytes = se_elems_from(vs, 0);
            lemma_se_i32_roundtrip(n, elems_bytes);
            assert(se_value(v) =~= se_i32(n) + elems_bytes);
            let et = t->SetOf_0;
            lemma_se_elems_roundtrip(vs, 0, *et, Seq::<u8>::empty());
            assert(elems_bytes + Seq::<u8>::empty() =~= elems_bytes);
            assert(vs.skip(0) =~= vs);
        },
    }
}

/// Decoding the set elements back from their encoding, from index `i` on,
/// gives the same elements in the same order.
#[verifier::rlimit(100)]
pub proof fn lemma_se_elems_roundtrip(vs: Seq<CQLValueV>, i: int, et: ColumnType, rest: Seq<u8>)
    requires
        0 <= i <= vs.len(),
        forall|j: int| 0 <= j < vs.len() ==> value_ok(#[trigger] vs[j], et),
    ensures
        sd_set_elems(et, se_elems_from(vs, i) + rest, (vs.len() - i) as nat) == Ok::<
            _,
            DecodeError,
        >((vs.skip(i), rest)),
    decreases vs, vs.len() - i + 1int,
{
    if i == vs.len() {
        assert(se_elems_from(vs, i) + rest =~= rest);
        assert(vs.skip(i) =~= Seq::<CQLValueV>::empty());
    } else {
        let eb = se_value(vs[i]);
        let tail_bytes = se_elems_from(vs, i + 1) + rest;
        lemma_se_bytes_roundtrip(eb, tail_bytes);
        assert(se_elems_from(vs, i) + rest =~= se_bytes(eb) + tail_bytes);
        lemma_se_value_roundtrip(vs[i], et);
        lemma_se_elems_roundtrip(vs, i + 1, et, rest);
        assert(seq![vs[i]] + vs.skip(i + 1) =~= vs.skip(i));
    }
}

/// Decoding the cells of a row back from their encoding, from column `i`
/// on, gives the same cells: absent where null was encoded, present with
/// the same value otherwise.
#[verifier::rlimit(100)]
pub proof fn lemma_se_cells_roundtrip(
    cells: Seq<Option<CQLValueV>>,
    i: int,
    types: Seq<ColumnType>,
    rest: Seq<u8>,
)
    requires
        0 <= i <= cells.len(),
        cells.len() == types.len(),
        forall|j: int| 0 <= j < cells.len() ==> cell_ok(#[trigger] cells[j], types[j]),
    ensures
        sd_cells(se_cells_from(cells, i) + rest, types.skip(i)) == Ok::<_, DecodeError>((
            cells.skip(i),
            rest,
        )),
    decreases cells.len() - i,
{
    if i == cells.len() {
        assert(se_cells_from(cells, i) + rest =~= rest);
        assert(cells.skip(i) =~= Seq::<Option<CQLValueV>>::empty());
    } else {
        let tail_bytes = se_cells_from(cells, i + 1) + rest;
        assert(types.skip(i)[0] == types[i]);
        assert(types.skip(i).drop_first() =~= types.skip(i + 1));
        match cells[i] {
            None => {
                lemma_se_i32_roundtrip(-1i32, tail_bytes);
                assert(se_cells_from(cells, i) + rest =~= se_i32(-1i32) + tail_bytes);
            },
            Some(v) => {
                lemma_se_bytes_roundtrip(se_value(v), tail_bytes);
                assert(se_cells_from(cells, i) + rest =~= se_bytes(se_value(v)) + tail_bytes);
                lemma_se_value_roundtrip(v, types[i]);
            },
        }
        lemma_se_cells_roundtrip(cells, i + 1, types, rest);
        assert(seq![cells[i]] + cells.skip(i + 1) =~= cells.skip(i));
    }
}

/// Decoding the rows back from their encoding, from row `i` on, gives the
/// same rows.
#[verifier::rlimit(100)]
pub proof fn lemma_se_rows_from_roundtrip(
    rows: Seq<RowV>,
    i: int,
    specs: Seq<ColumnSpecV>,
    rest: Seq<u8>,
)
    requires
        0 <= i <= rows.len(),
        forall|j: int| 0 <= j < rows.len() ==> row_ok(#[trigger] rows[j], specs),
    ensures
        sd_row_list(se_rows_from(rows, i) + rest, col_types(specs), (rows.len() - i) as nat)
            == Ok::<_, DecodeError>((rows.skip(i), rest)),
    decreases rows.len() - i,
{
    if i == rows.len() {
        assert(se_rows_from(rows, i) + rest =~= rest);
        assert(rows.skip(i) =~= Seq::<RowV>::empty());
    } else {
        let cells = rows[i].columns;
        let types = col_types(specs);
        let tail_bytes = se_rows_from(rows, i + 1) + rest;
        assert(cells.len() == types.len());
        assert forall|j: int| 0 <= j < cells.len() implies cell_ok(#[trigger] cells[j], types[j]) by {
            assert(types[j] == specs[j].typ);
        }
        lemma_se_cells_roundtrip(cells, 0, types, tail_bytes);
        assert(types.skip(0) =~= types);
        assert(cells.skip(0) =~= cells);
        assert(se_cells_from(cells, 0) + tail_bytes =~= se_rows_from(rows, i) + rest);
        assert(RowV { columns: cells } =~= rows[i]);
        lemma_se_rows_from_roundtrip(rows, i + 1, specs, rest);
        assert(seq![rows[i]] + rows.skip(i + 1) =~= rows.skip(i));
    }
}

/// Decoding a Rows body back from its encoding gives it back.
#[verifier::rlimit(100)]
pub proof fn lemma_se_rows_body_roundtrip(rw: RowsV, rest: Seq<u8>)
    requires
        rows_ok(rw),
    ensures
        sd_rows(se_rows_body(rw) + rest) == Ok::<_, DecodeError>((rw, rest)),
{
    let rc = rw.rows_count as i32;
    let a = se_result_metadata(rw.metadata);
    let b = se_i32(rc);
    let c = se_rows_from(rw.rows, 0);
    assert(se_rows_body(rw) == a + b + c);
    assert((a + b + c) + rest =~= a + (b + (c + rest))) by {
        assert(b + c + rest =~= b + (c + rest));
    }
    lemma_se_result_metadata_roundtrip(rw.metadata, b + (c + rest));
    lemma_se_i32_roundtrip(rc, c + rest);
    lemma_se_rows_from_roundtrip(rw.rows, 0, rw.metadata.col_specs, rest);
    assert(rw.rows.skip(0) =~= rw.rows);
    assert(RowsV { metadata: rw.metadata, rows_count: rc as int, rows: rw.rows } =~= rw);
}

/// Decoding a Prepared body back from its encoding gives it back.
#[verifier::rlimit(100)]
pub proof fn lemma_se_prepared_roundtrip(p: PreparedV, rest: Seq<u8>)
    requires
        prepared_ok(p),
    ensures
        sd_prepared(se_prepared(p) + rest) == Ok::<_, DecodeError>((p, rest)),
{
    let pm_bytes = se_prepared_metadata(p.prepared_metadata);
    let rm_bytes = se_result_metadata(p.metadata);
    lemma_se_short_bytes_roundtrip(p.id, pm_bytes + (rm_bytes + rest));
    assert(se_prepared(p) + rest =~= se_short_bytes(p.id) + (pm_bytes + (rm_bytes + rest)));
    lemma_se_prepared_metadata_roundtrip(p.prepared_metadata, rm_bytes + rest);
    lemma_se_result_metadata_roundtrip(p.metadata, rest);
    assert(PreparedV { id: p.id, prepared_metadata: p.prepared_metadata, metadata: p.metadata }
        =~= p);
}

/// Round-trip identity: decoding the encoding of any well-formed result
/// reproduces that result exactly, field for field, whatever bytes follow
/// the message on the wire.
#[verifier::rlimit(100)]
#[verifier::spinoff_prover]
pub proof fn lemma_roundtrip(v: ServerResultV, rest: Seq<u8>)
    requires
        result_ok(v),
    ensures
        sd_message(se_message(v) + rest) == Ok::<_, DecodeError>((v, rest)),
{
    match v {
        ServerResultV::Void => {
            lemma_se_i32_roundtrip(1i32, rest);
        },
        ServerResultV::Rows(rw) => {
            lemma_se_i32_roundtrip(2i32, se_rows_body(rw) + rest);
            assert(se_message(v) + rest =~= se_i32(2i32) + (se_rows_body(rw) + rest));
            lemma_se_rows_body_roundtrip(rw, rest);
        },
        ServerResultV::SetKeyspace => {
            lemma_se_i32_roundtrip(3i32, rest);
        },
        ServerResultV::Prepared(p) => {
            lemma_se_i32_roundtrip(4i32, se_prepared(p) + rest);
            assert(se_message(v) + rest =~= se_i32(4i32) + (se_prepared(p) + rest));
            lemma_se_prepared_roundtrip(p, rest);
        },
        ServerResultV::SchemaChange => {
            lemma_se_i32_roundtrip(5i32, rest);
        },
    }
}

/// Negative-count rejection, column count: result metadata whose column
/// count field is negative decodes to `MalformedCount`, whatever follows.
pub proof fn lemma_negative_column_count_rejected(
    s: Seq<u8>,
    flags: i32,
    r1: Seq<u8>,
    cc: i32,
    r2: Seq<u8>,
)
    requires
        sr_i32(s) == Ok::<_, DecodeError>((flags, r1)),
        sr_i32(r1) == Ok::<_, DecodeError>((cc, r2)),
        cc < 0,
    ensures
        sd_result_metadata(s) == Err::<(ResultMetadataV, Seq<u8>), _>(DecodeError::MalformedCount),
{
}

/// Negative-count rejection, bind-marker count: prepared metadata whose
/// bind-marker count field is negative decodes to `MalformedCount` (and
/// so does one whose column count is negative).
pub proof fn lemma_negative_pk_count_rejected(
    s: Seq<u8>,
    flags: i32,
    r1: Seq<u8>,
    cc: i32,
    r2: Seq<u8>,
    pkc: i32,
    r3: Seq<u8>,
)
    requires
        sr_i32(s) == Ok::<_, DecodeError>((flags, r1)),
        sr_i32(r1) == Ok::<_, DecodeError>((cc, r2)),
        sr_i32(r2) == Ok::<_, DecodeError>((pkc, r3)),
        cc < 0 || pkc < 0,
    ensures
        sd_prepared_metadata(s) == Err::<(PreparedMetadataV, Seq<u8>), _>(
            DecodeError::MalformedCount,
        ),
{
}

/// Negative-count rejection, row count: a Rows body whose row count field
/// is negative decodes to `MalformedCount`.
pub proof fn lemma_negative_row_count_rejected(
    s: Seq<u8>,
    m: ResultMetadataV,
    r1: Seq<u8>,
    rc: i32,
    r2: Seq<u8>,
)
    requires
        sd_result_metadata(s) == Ok::<_, DecodeError>((m, r1)),
        m.col_specs.len() == m.col_count,
        sr_i32(r1) == Ok::<_, DecodeError>((rc, r2)),
        rc < 0,
    ensures
        sd_rows(s) == Err::<(RowsV, Seq<u8>), _>(DecodeError::MalformedCount),
{
}

/// Negative-count rejection, set-element count: a set value blob whose
/// element count field is negative decodes to `MalformedCount`.
pub proof fn lemma_negative_set_count_rejected(
    b: Seq<u8>,
    et: ColumnType,
    n: i32,
    r: Seq<u8>,
)
    requires
        sr_i32(b) == Ok::<_, DecodeError>((n, r)),
        n < 0,
    ensures
        sd_value(ColumnType::SetOf(Box::new(et)), b) == Err::<CQLValueV, _>(
            DecodeError::MalformedCount,
        ),
{
}

/// Unknown-tag rejection: a type-descriptor tag outside the implemented
/// set decodes to `UnsupportedType(tag)`.
pub proof fn lemma_unknown_type_tag_rejected(s: Seq<u8>, id: u16, r: Seq<u8>)
    requires
        sr_u16(s) == Ok::<_, DecodeError>((id, r)),
        id != 0x0001 && id != 0x0009 && id != 0x000D && id != 0x0022,
    ensures
        sd_type(s) == Err::<(ColumnType, Seq<u8>), _>(DecodeError::UnsupportedType(id)),
{
}

/// Unknown-tag rejection: a result-kind tag outside the five known kinds
/// decodes to `UnknownResultKind(kind)`.
pub proof fn lemma_unknown_result_kind_rejected(s: Seq<u8>, kind: i32, r: Seq<u8>)
    requires
        sr_i32(s) == Ok::<_, DecodeError>((kind, r)),
        !(1 <= kind <= 5),
    ensures
        sd_message(s) == Err::<(ServerResultV, Seq<u8>), _>(DecodeError::UnknownResultKind(kind)),
{
}

} // verus!
