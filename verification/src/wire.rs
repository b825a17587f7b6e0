//! The wire grammar of a RESULT message, as spec functions.
//!
//! The decoders (`sd_*`) consume a byte sequence from the front and return
//! the decoded structure, as a mathematical view, together with the
//! remaining suffix — or the decode error that the input deserves. They are
//! the single definition of what every executable decoder must do.
//!
//! The encoders (`se_*`) produce the byte sequence for a view. The format
//! is not canonical (column table identities may be carried once, under the
//! "global table spec" flag, or once per column), so the encoders take that
//! choice as an argument where it exists; the round-trip laws show that the
//! choice does not change what is decoded.

use vstd::prelude::*;
use vstd::utf8::{decode_utf8, encode_utf8, is_ascii_chars, valid_utf8};

use crate::cursor::{
    be_to_i32, be_to_u16, sr_bytes, sr_bytes_opt, sr_i32, sr_short_bytes, sr_string, sr_u16,
};
use crate::error::DecodeError;
use crate::result::ColumnType;

verus! {

/// View of a table identity: a keyspace name and a table name.
#[verifier::ext_equal]
pub struct TableSpecV {
    pub ks_name: Seq<char>,
    pub table_name: Seq<char>,
}

/// View of one column's specification.
#[verifier::ext_equal]
pub struct ColumnSpecV {
    pub table_spec: TableSpecV,
    pub name: Seq<char>,
    pub typ: ColumnType,
}

/// View of the metadata that governs a row set.
#[verifier::ext_equal]
pub struct ResultMetadataV {
    pub col_count: int,
    pub col_specs: Seq<ColumnSpecV>,
}

/// View of the metadata of a prepared statement's bind parameters.
#[verifier::ext_equal]
pub struct PreparedMetadataV {
    pub col_count: int,
    pub pk_indexes: Seq<u16>,
    pub col_specs: Seq<ColumnSpecV>,
}

/// View of a decoded cell value; mirrors `CQLValue` shape for shape.
#[verifier::ext_equal]
pub enum CQLValueV {
    Ascii(Seq<char>),
    Int(i32),
    Text(Seq<char>),
    SetOf(Seq<CQLValueV>),
}

/// View of one row: one optional value per column, in column order.
#[verifier::ext_equal]
pub struct RowV {
    pub columns: Seq<Option<CQLValueV>>,
}

/// View of a decoded row set.
#[verifier::ext_equal]
pub struct RowsV {
    pub metadata: ResultMetadataV,
    pub rows_count: int,
    pub rows: Seq<RowV>,
}

/// View of a prepared-statement handle.
#[verifier::ext_equal]
pub struct PreparedV {
    pub id: Seq<u8>,
    pub prepared_metadata: PreparedMetadataV,
    pub metadata: ResultMetadataV,
}

/// View of a whole decoded RESULT message.
#[verifier::ext_equal]
pub enum ServerResultV {
    Void,
    Rows(RowsV),
    SetKeyspace,
    Prepared(PreparedV),
    SchemaChange,
}

/// True when every byte is 7-bit ASCII.
pub open spec fn is_ascii_bytes(b: Seq<u8>) -> bool {
    forall|i: int| 0 <= i < b.len() ==> #[trigger] b[i] <= 0x7f
}

/// Decodes a type descriptor: a 2-byte tag, recursing once for the element
/// type of a set. An unimplemented tag is `UnsupportedType(tag)`.
pub open spec fn sd_type(s: Seq<u8>) -> Result<(ColumnType, Seq<u8>), DecodeError>
    decreases s.len(),
{
    match sr_u16(s) {
        Err(e) => Err(e),
        Ok((id, r)) => if id == 0x0001 {
            Ok((ColumnType::Ascii, r))
        } else if id == 0x0009 {
            Ok((ColumnType::Int, r))
        } else if id == 0x000D {
            Ok((ColumnType::Text, r))
        } else if id == 0x0022 {
            match sd_type(r) {
                Err(e) => Err(e),
                Ok((t, r2)) => Ok((ColumnType::SetOf(Box::new(t)), r2)),
            }
        } else {
            Err(DecodeError::UnsupportedType(id))
        },
    }
}

/// Decodes a table identity: keyspace name then table name.
pub open spec fn sd_table_spec(s: Seq<u8>) -> Result<(TableSpecV, Seq<u8>), DecodeError> {
    match sr_string(s) {
        Err(e) => Err(e),
        Ok((ks, r)) => match sr_string(r) {
            Err(e) => Err(e),
            Ok((tn, r2)) => Ok((TableSpecV { ks_name: ks, table_name: tn }, r2)),
        },
    }
}

/// Decodes `n` column specs in wire order. When a shared identity `gts` is
/// given it is reused for every column; otherwise each column carries its
/// own identity first. Then come the column's name and type descriptor.
pub open spec fn sd_col_specs(s: Seq<u8>, gts: Option<TableSpecV>, n: nat) -> Result<
    (Seq<ColumnSpecV>, Seq<u8>),
    DecodeError,
>
    decreases n,
{
    if n == 0 {
        Ok((Seq::empty(), s))
    } else {
        let ts_step = match gts {
            Some(ts) => Ok((ts, s)),
            None => sd_table_spec(s),
        };
        match ts_step {
            Err(e) => Err(e),
            Ok((ts, r1)) => match sr_string(r1) {
                Err(e) => Err(e),
                Ok((name, r2)) => match sd_type(r2) {
                    Err(e) => Err(e),
                    Ok((t, r3)) => match sd_col_specs(r3, gts, (n - 1) as nat) {
                        Err(e) => Err(e),
                        Ok((tail, r4)) => Ok(
                            (
                                seq![ColumnSpecV { table_spec: ts, name, typ: t }] + tail,
                                r4,
                            ),
                        ),
                    },
                },
            },
        }
    }
}

/// Decodes result metadata: flags, column count (rejected when negative),
/// then — unless the "metadata suppressed" bit is set — an optional shared
/// table identity and the column specs. The "more pages follow" bit is not
/// supported and is rejected as `UnsupportedPaging`.
pub open spec fn sd_result_metadata(s: Seq<u8>) -> Result<(ResultMetadataV, Seq<u8>), DecodeError> {
    match sr_i32(s) {
        Err(e) => Err(e),
        Ok((flags, r1)) => match sr_i32(r1) {
            Err(e) => Err(e),
            Ok((cc, r2)) => if cc < 0 {
                Err(DecodeError::MalformedCount)
            } else if flags & 0x0002 != 0 {
                Err(DecodeError::UnsupportedPaging)
            } else if flags & 0x0004 != 0 {
                Ok((ResultMetadataV { col_count: cc as int, col_specs: Seq::empty() }, r2))
            } else if flags & 0x0001 != 0 {
                match sd_table_spec(r2) {
                    Err(e) => Err(e),
                    Ok((ts, r3)) => match sd_col_specs(r3, Some(ts), cc as nat) {
                        Err(e) => Err(e),
                        Ok((specs, r4)) => Ok(
                            (ResultMetadataV { col_count: cc as int, col_specs: specs }, r4),
                        ),
                    },
                }
            } else {
                match sd_col_specs(r2, None, cc as nat) {
                    Err(e) => Err(e),
                    Ok((specs, r3)) => Ok(
                        (ResultMetadataV { col_count: cc as int, col_specs: specs }, r3),
                    ),
                }
            },
        },
    }
}

/// Decodes `n` big-endian `u16` bind-index entries.
pub open spec fn sd_u16_list(s: Seq<u8>, n: nat) -> Result<(Seq<u16>, Seq<u8>), DecodeError>
    decreases n,
{
    if n == 0 {
        Ok((Seq::empty(), s))
    } else {
        match sr_u16(s) {
            Err(e) => Err(e),
            Ok((x, r)) => match sd_u16_list(r, (n - 1) as nat) {
                Err(e) => Err(e),
                Ok((tail, r2)) => Ok((seq![x] + tail, r2)),
            },
        }
    }
}

/// Decodes prepared-statement metadata: flags (only the "global table
/// spec" bit is meaningful), column count, bind-marker count (each
/// rejected when negative), the bind indexes, then the column specs as in
/// result metadata.
pub open spec fn sd_prepared_metadata(s: Seq<u8>) -> Result<
    (PreparedMetadataV, Seq<u8>),
    DecodeError,
> {
    match sr_i32(s) {
        Err(e) => Err(e),
        Ok((flags, r1)) => match sr_i32(r1) {
            Err(e) => Err(e),
            Ok((cc, r2)) => if cc < 0 {
                Err(DecodeError::MalformedCount)
            } else {
                match sr_i32(r2) {
                    Err(e) => Err(e),
                    Ok((pkc, r3)) => if pkc < 0 {
                        Err(DecodeError::MalformedCount)
                    } else {
                        match sd_u16_list(r3, pkc as nat) {
                            Err(e) => Err(e),
                            Ok((pks, r4)) => if flags & 0x0001 != 0 {
                                match sd_table_spec(r4) {
                                    Err(e) => Err(e),
                                    Ok((ts, r5)) => match sd_col_specs(r5, Some(ts), cc as nat) {
                                        Err(e) => Err(e),
                                        Ok((specs, r6)) => Ok(
                                            (
                                                PreparedMetadataV {
                                                    col_count: cc as int,
                                                    pk_indexes: pks,
                                                    col_specs: specs,
                                                },
                                                r6,
                                            ),
                                        ),
                                    },
                                }
                            } else {
                                match sd_col_specs(r4, None, cc as nat) {
                                    Err(e) => Err(e),
                                    Ok((specs, r5)) => Ok(
                                        (
                                            PreparedMetadataV {
                                                col_count: cc as int,
                                                pk_indexes: pks,
                                                col_specs: specs,
                                            },
                                            r5,
                                        ),
                                    ),
                                }
                            },
                        }
                    },
                }
            },
        },
    }
}

/// Decodes one value blob against its type descriptor, consuming the blob
/// exactly.
pub open spec fn sd_value(t: ColumnType, b: Seq<u8>) -> Result<CQLValueV, DecodeError>
    decreases t, 0int,
{
    match t {
        ColumnType::Ascii => if !is_ascii_bytes(b) {
            Err(DecodeError::NotAscii)
        } else if valid_utf8(b) {
            Ok(CQLValueV::Ascii(decode_utf8(b)))
        } else {
            Err(DecodeError::InvalidUtf8)
        },
        ColumnType::Int => if b.len() != 4 {
            Err(DecodeError::BadFixedWidth)
        } else {
            Ok(CQLValueV::Int(be_to_i32(b[0], b[1], b[2], b[3]) as i32))
        },
        ColumnType::Text => if valid_utf8(b) {
            Ok(CQLValueV::Text(decode_utf8(b)))
        } else {
            Err(DecodeError::InvalidUtf8)
        },
        ColumnType::SetOf(et) => match sr_i32(b) {
            Err(e) => Err(e),
            Ok((n, r)) => if n < 0 {
                Err(DecodeError::MalformedCount)
            } else {
                match sd_set_elems(*et, r, n as nat) {
                    Err(e) => Err(e),
                    Ok((vs, r2)) => if r2.len() > 0 {
                        Err(DecodeError::TrailingBytes)
                    } else {
                        Ok(CQLValueV::SetOf(vs))
                    },
                }
            },
        },
    }
}

/// Decodes `n` set elements: each is a length-prefixed blob holding one
/// value of the element type, in wire order.
pub open spec fn sd_set_elems(t: ColumnType, s: Seq<u8>, n: nat) -> Result<
    (Seq<CQLValueV>, Seq<u8>),
    DecodeError,
>
    decreases t, n + 1int,
{
    if n == 0 {
        Ok((Seq::empty(), s))
    } else {
        match sr_bytes(s) {
            Err(e) => Err(e),
            Ok((eb, r)) => match sd_value(t, eb) {
                Err(e) => Err(e),
                Ok(v) => match sd_set_elems(t, r, (n - 1) as nat) {
                    Err(e) => Err(e),
                    Ok((tail, r2)) => Ok((seq![v] + tail, r2)),
                },
            },
        }
    }
}

/// Decodes one row: one nullable cell per column, each present cell decoded
/// against its column's type.
pub open spec fn sd_cells(s: Seq<u8>, types: Seq<ColumnType>) -> Result<
    (Seq<Option<CQLValueV>>, Seq<u8>),
    DecodeError,
>
    decreases types.len(),
{
    if types.len() == 0 {
        Ok((Seq::empty(), s))
    } else {
        match sr_bytes_opt(s) {
            Err(e) => Err(e),
            Ok((ob, r)) => match ob {
                None => match sd_cells(r, types.drop_first()) {
                    Err(e) => Err(e),
                    Ok((tail, r2)) => Ok((seq![None] + tail, r2)),
                },
                Some(eb) => match sd_value(types[0], eb) {
                    Err(e) => Err(e),
                    Ok(v) => match sd_cells(r, types.drop_first()) {
                        Err(e) => Err(e),
                        Ok((tail, r2)) => Ok((seq![Some(v)] + tail, r2)),
                    },
                },
            },
        }
    }
}

/// Decodes `n` rows of cells.
pub open spec fn sd_row_list(s: Seq<u8>, types: Seq<ColumnType>, n: nat) -> Result<
    (Seq<RowV>, Seq<u8>),
    DecodeError,
>
    decreases n,
{
    if n == 0 {
        Ok((Seq::empty(), s))
    } else {
        match sd_cells(s, types) {
            Err(e) => Err(e),
            Ok((cells, r)) => match sd_row_list(r, types, (n - 1) as nat) {
                Err(e) => Err(e),
                Ok((tail, r2)) => Ok((seq![RowV { columns: cells }] + tail, r2)),
            },
        }
    }
}

/// The type of each column, in order.
pub open spec fn col_types(specs: Seq<ColumnSpecV>) -> Seq<ColumnType> {
    specs.map_values(|cs: ColumnSpecV| cs.typ)
}

/// Decodes a Rows body: result metadata, a row count (rejected when
/// negative), then the row grid. Metadata whose column specs were
/// suppressed cannot type the cells and is rejected.
pub open spec fn sd_rows(s: Seq<u8>) -> Result<(RowsV, Seq<u8>), DecodeError> {
    match sd_result_metadata(s) {
        Err(e) => Err(e),
        Ok((m, r1)) => if m.col_specs.len() != m.col_count {
            Err(DecodeError::MetadataSuppressed)
        } else {
            match sr_i32(r1) {
                Err(e) => Err(e),
                Ok((rc, r2)) => if rc < 0 {
                    Err(DecodeError::MalformedCount)
                } else {
                    match sd_row_list(r2, col_types(m.col_specs), rc as nat) {
                        Err(e) => Err(e),
                        Ok((rows, r3)) => Ok(
                            (RowsV { metadata: m, rows_count: rc as int, rows }, r3),
                        ),
                    }
                },
            }
        },
    }
}

/// Decodes a Prepared body: the statement id (a short blob), the bind
/// metadata, then the result metadata.
pub open spec fn sd_prepared(s: Seq<u8>) -> Result<(PreparedV, Seq<u8>), DecodeError> {
    match sr_short_bytes(s) {
        Err(e) => Err(e),
        Ok((id, r1)) => match sd_prepared_metadata(r1) {
            Err(e) => Err(e),
            Ok((pm, r2)) => match sd_result_metadata(r2) {
                Err(e) => Err(e),
                Ok((rm, r3)) => Ok(
                    (PreparedV { id, prepared_metadata: pm, metadata: rm }, r3),
                ),
            },
        },
    }
}

/// Decodes one whole RESULT message: the 4-byte kind tag, then the body of
/// that kind. An unknown kind is `UnknownResultKind(kind)`.
pub open spec fn sd_message(s: Seq<u8>) -> Result<(ServerResultV, Seq<u8>), DecodeError> {
    match sr_i32(s) {
        Err(e) => Err(e),
        Ok((kind, r)) => if kind == 0x0001 {
            Ok((ServerResultV::Void, r))
        } else if kind == 0x0002 {
            match sd_rows(r) {
                Err(e) => Err(e),
                Ok((rows, r2)) => Ok((ServerResultV::Rows(rows), r2)),
            }
        } else if kind == 0x0003 {
            Ok((ServerResultV::SetKeyspace, r))
        } else if kind == 0x0004 {
            match sd_prepared(r) {
                Err(e) => Err(e),
                Ok((p, r2)) => Ok((ServerResultV::Prepared(p), r2)),
            }
        } else if kind == 0x0005 {
            Ok((ServerResultV::SchemaChange, r))
        } else {
            Err(DecodeError::UnknownResultKind(kind))
        },
    }
}

/// The two big-endian bytes of a `u16`.
pub open spec fn be16(n: u16) -> Seq<u8> {
    seq![(n as int / 0x100) as u8, (n as int % 0x100) as u8]
}

/// The four big-endian bytes of an unsigned 32-bit value.
pub open spec fn be32(u: int) -> Seq<u8>
    recommends
        0 <= u < 0x1_0000_0000,
{
    seq![
        (u / 0x100_0000 % 0x100) as u8,
        (u / 0x1_0000 % 0x100) as u8,
        (u / 0x100 % 0x100) as u8,
        (u % 0x100) as u8,
    ]
}

/// Encodes an `i32` as four big-endian two's-complement bytes.
pub open spec fn se_i32(x: i32) -> Seq<u8> {
    be32(
        if x < 0 {
            x as int + 0x1_0000_0000
        } else {
            x as int
        },
    )
}

/// Encodes a string: a 2-byte length prefix, then the UTF-8 bytes.
pub open spec fn se_string(cs: Seq<char>) -> Seq<u8> {
    be16(encode_utf8(cs).len() as u16) + encode_utf8(cs)
}

/// Encodes a blob: a 4-byte signed length prefix, then the bytes.
pub open spec fn se_bytes(b: Seq<u8>) -> Seq<u8> {
    se_i32(b.len() as i32) + b
}

/// Encodes a short blob: a 2-byte length prefix, then the bytes.
pub open spec fn se_short_bytes(b: Seq<u8>) -> Seq<u8> {
    be16(b.len() as u16) + b
}

/// Encodes a type descriptor.
pub open spec fn se_type(t: ColumnType) -> Seq<u8>
    decreases t,
{
    match t {
        ColumnType::Ascii => be16(0x0001),
        ColumnType::Int => be16(0x0009),
        ColumnType::Text => be16(0x000D),
        ColumnType::SetOf(e) => be16(0x0022) + se_type(*e),
    }
}

/// Encodes a table identity.
pub open spec fn se_table_spec(ts: TableSpecV) -> Seq<u8> {
    se_string(ts.ks_name) + se_string(ts.table_name)
}

/// Encodes the column specs from index `i` on. Under `global` each
/// column's own identity is left out (it is carried once, up front).
pub open spec fn se_col_specs_from(specs: Seq<ColumnSpecV>, i: int, global: bool) -> Seq<u8>
    decreases specs.len() - i,
{
    if i < 0 || i >= specs.len() {
        Seq::empty()
    } else {
        (if global {
            Seq::empty()
        } else {
            se_table_spec(specs[i].table_spec)
        }) + se_string(specs[i].name) + se_type(specs[i].typ) + se_col_specs_from(
            specs,
            i + 1,
            global,
        )
    }
}

/// Encodes result metadata with each column carrying its own identity.
pub open spec fn se_result_metadata(m: ResultMetadataV) -> Seq<u8> {
    se_i32(0) + se_i32(m.col_count as i32) + se_col_specs_from(m.col_specs, 0, false)
}

/// Encodes result metadata under the "global table spec" flag, carrying
/// the shared identity `ts` once.
pub open spec fn se_result_metadata_global(m: ResultMetadataV, ts: TableSpecV) -> Seq<u8> {
    se_i32(1) + se_i32(m.col_count as i32) + se_table_spec(ts) + se_col_specs_from(
        m.col_specs,
        0,
        true,
    )
}

/// Encodes the bind-index entries from index `i` on.
pub open spec fn se_u16_list_from(xs: Seq<u16>, i: int) -> Seq<u8>
    decreases xs.len() - i,
{
    if i < 0 || i >= xs.len() {
        Seq::empty()
    } else {
        be16(xs[i]) + se_u16_list_from(xs, i + 1)
    }
}

/// Encodes prepared-statement metadata, each column carrying its own
/// identity.
pub open spec fn se_prepared_metadata(m: PreparedMetadataV) -> Seq<u8> {
    se_i32(0) + se_i32(m.col_count as i32) + se_i32(m.pk_indexes.len() as i32) + se_u16_list_from(
        m.pk_indexes,
        0,
    ) + se_col_specs_from(m.col_specs, 0, false)
}

/// Encodes one value as its raw blob contents (no length prefix).
pub open spec fn se_value(v: CQLValueV) -> Seq<u8>
    decreases v, 0int,
{
    match v {
        CQLValueV::Ascii(cs) => encode_utf8(cs),
        CQLValueV::Int(x) => se_i32(x),
        CQLValueV::Text(cs) => encode_utf8(cs),
        CQLValueV::SetOf(vs) => se_i32(vs.len() as i32) + se_elems_from(vs, 0),
    }
}

/// Encodes the set elements from index `i` on, each as a length-prefixed
/// blob.
pub open spec fn se_elems_from(vs: Seq<CQLValueV>, i: int) -> Seq<u8>
    decreases vs, vs.len() - i + 1int,
{
    if i < 0 || i >= vs.len() {
        Seq::empty()
    } else {
        se_bytes(se_value(vs[i])) + se_elems_from(vs, i + 1)
    }
}

/// Encodes one cell: the null sentinel for an absent value, else the
/// value as a length-prefixed blob.
pub open spec fn se_cell(c: Option<CQLValueV>) -> Seq<u8> {
    match c {
        None => se_i32(-1i32),
        Some(v) => se_bytes(se_value(v)),
    }
}

/// Encodes the cells of one row from index `i` on.
pub open spec fn se_cells_from(cells: Seq<Option<CQLValueV>>, i: int) -> Seq<u8>
    decreases cells.len() - i,
{
    if i < 0 || i >= cells.len() {
        Seq::empty()
    } else {
        se_cell(cells[i]) + se_cells_from(cells, i + 1)
    }
}

/// Encodes the rows from index `i` on.
pub open spec fn se_rows_from(rows: Seq<RowV>, i: int) -> Seq<u8>
    decreases rows.len() - i,
{
    if i < 0 || i >= rows.len() {
        Seq::empty()
    } else {
        se_cells_from(rows[i].columns, 0) + se_rows_from(rows, i + 1)
    }
}

/// Encodes a Rows body: metadata, row count, then the row grid.
pub open spec fn se_rows_body(rw: RowsV) -> Seq<u8> {
    se_result_metadata(rw.metadata) + se_i32(rw.rows_count as i32) + se_rows_from(rw.rows, 0)
}

/// Encodes a Prepared body: statement id, bind metadata, result metadata.
pub open spec fn se_prepared(p: PreparedV) -> Seq<u8> {
    se_short_bytes(p.id) + se_prepared_metadata(p.prepared_metadata) + se_result_metadata(
        p.metadata,
    )
}

/// Encodes one whole RESULT message: the kind tag, then the body.
pub open spec fn se_message(v: ServerResultV) -> Seq<u8> {
    match v {
        ServerResultV::Void => se_i32(1),
        ServerResultV::Rows(rw) => se_i32(2) + se_rows_body(rw),
        ServerResultV::SetKeyspace => se_i32(3),
        ServerResultV::Prepared(p) => se_i32(4) + se_prepared(p),
        ServerResultV::SchemaChange => se_i32(5),
    }
}

/// True when a string's UTF-8 bytes fit the 2-byte length prefix.
pub open spec fn str_ok(cs: Seq<char>) -> bool {
    encode_utf8(cs).len() <= 0xFFFF
}

/// True when a table identity can be carried on the wire.
pub open spec fn table_spec_ok(ts: TableSpecV) -> bool {
    str_ok(ts.ks_name) && str_ok(ts.table_name)
}

/// True when one column spec can be carried on the wire.
pub open spec fn col_spec_ok(cs: ColumnSpecV) -> bool {
    table_spec_ok(cs.table_spec) && str_ok(cs.name)
}

/// True when every column spec can be carried on the wire.
pub open spec fn col_specs_ok(specs: Seq<ColumnSpecV>) -> bool {
    forall|j: int| 0 <= j < specs.len() ==> col_spec_ok(#[trigger] specs[j])
}

/// True when result metadata is well formed for the wire: the declared
/// count matches the specs, both fit an `i32`, and each spec fits.
pub open spec fn metadata_ok(m: ResultMetadataV) -> bool {
    &&& 0 <= m.col_count <= 0x7FFF_FFFF
    &&& m.col_specs.len() == m.col_count
    &&& col_specs_ok(m.col_specs)
}

/// True when prepared metadata is well formed for the wire.
pub open spec fn prepared_metadata_ok(m: PreparedMetadataV) -> bool {
    &&& 0 <= m.col_count <= 0x7FFF_FFFF
    &&& m.col_specs.len() == m.col_count
    &&& col_specs_ok(m.col_specs)
    &&& m.pk_indexes.len() <= 0x7FFF_FFFF
}

/// True when a value matches its descriptor and can be carried on the
/// wire: an ascii value holds only ASCII characters, a set's element
/// count and every element blob fit their `i32` length fields, and the
/// value's shape mirrors the descriptor's exactly.
pub open spec fn value_ok(v: CQLValueV, t: ColumnType) -> bool
    decreases v,
{
    se_value(v).len() <= 0x7FFF_FFFF && match (v, t) {
        (CQLValueV::Ascii(cs), ColumnType::Ascii) => is_ascii_chars(cs),
        (CQLValueV::Int(_), ColumnType::Int) => true,
        (CQLValueV::Text(_), ColumnType::Text) => true,
        (CQLValueV::SetOf(vs), ColumnType::SetOf(et)) => vs.len() <= 0x7FFF_FFFF && (forall|
            j: int,
        |
            0 <= j < vs.len() ==> value_ok(#[trigger] vs[j], *et)),
        _ => false,
    }
}

/// True when a cell is absent or holds a value matching the column type.
pub open spec fn cell_ok(c: Option<CQLValueV>, t: ColumnType) -> bool {
    match c {
        None => true,
        Some(v) => value_ok(v, t),
    }
}

/// True when a row has one well-formed cell per column.
pub open spec fn row_ok(r: RowV, specs: Seq<ColumnSpecV>) -> bool {
    r.columns.len() == specs.len() && (forall|j: int|
        0 <= j < specs.len() ==> cell_ok(#[trigger] r.columns[j], specs[j].typ))
}

/// True when a row set is well formed for the wire.
pub open spec fn rows_ok(rw: RowsV) -> bool {
    &&& metadata_ok(rw.metadata)
    &&& rw.rows_count == rw.rows.len()
    &&& rw.rows.len() <= 0x7FFF_FFFF
    &&& forall|j: int| 0 <= j < rw.rows.len() ==> row_ok(#[trigger] rw.rows[j], rw.metadata.col_specs)
}

/// True when a prepared handle is well formed for the wire.
pub open spec fn prepared_ok(p: PreparedV) -> bool {
    &&& p.id.len() <= 0xFFFF
    &&& prepared_metadata_ok(p.prepared_metadata)
    &&& metadata_ok(p.metadata)
}

/// True when a whole result is well formed for the wire.
pub open spec fn result_ok(v: ServerResultV) -> bool {
    match v {
        ServerResultV::Void => true,
        ServerResultV::Rows(rw) => rows_ok(rw),
        ServerResultV::SetKeyspace => true,
        ServerResultV::Prepared(p) => prepared_ok(p),
        ServerResultV::SchemaChange => true,
    }
}

} // verus!
