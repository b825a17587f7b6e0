//! The typed representation of a RESULT message, and the decoders that
//! build it from wire bytes.
//!
//! Every decoder is specified against the spec-level grammar in
//! [`crate::wire`]: on success it returns exactly the structure that the
//! grammar gives for the consumed bytes, and on failure exactly the error
//! that the grammar gives.

use vstd::prelude::*;
use vstd::slice::slice_to_vec;

use crate::cursor::{
    bytes_to_string, read_bytes, read_bytes_opt, read_i32, read_short_bytes, read_string, read_u16,
};
use crate::error::DecodeError;
use crate::wire::{
    col_types, is_ascii_bytes, sd_cells, sd_col_specs, sd_prepared, sd_prepared_metadata,
    sd_result_metadata,
    sd_row_list, sd_rows, sd_set_elems, sd_table_spec, sd_type, sd_u16_list, sd_value, sd_message,
    CQLValueV, ColumnSpecV, PreparedMetadataV, PreparedV, ResultMetadataV, RowV, RowsV,
    ServerResultV, TableSpecV,
};

use bytes::Bytes;

verus! {

/// The payload of a "set keyspace" notice (structurally empty in this
/// scope, kept so the top-level result variant set stays total).
#[derive(Debug, PartialEq, Eq)]
pub struct SetKeyspace {}

/// The payload of a schema-change notice (structurally empty in this
/// scope).
#[derive(Debug, PartialEq, Eq)]
pub struct SchemaChange {}

/// An opaque paging continuation token. Paging is not supported in this
/// scope, so no value of this type is ever produced.
#[derive(Debug, PartialEq, Eq)]
pub struct PagingState {}

/// A table identity: the keyspace and table a column belongs to.
#[derive(Debug, PartialEq, Eq)]
pub struct TableSpec {
    pub ks_name: String,
    pub table_name: String,
}

/// A column type descriptor. Recursive: a set's element type is itself a
/// descriptor.
#[derive(Debug, PartialEq, Eq)]
pub enum ColumnType {
    Ascii,
    Int,
    Text,
    SetOf(Box<ColumnType>),
}

/// A decoded cell value; mirrors `ColumnType` shape for shape.
#[derive(Debug, PartialEq)]
pub enum CQLValue {
    Ascii(String),
    Int(i32),
    Text(String),
    SetOf(Vec<CQLValue>),
}

/// One column's specification: its table identity, name, and type.
#[derive(Debug, PartialEq)]
pub struct ColumnSpec {
    pub table_spec: TableSpec,
    pub name: String,
    pub typ: ColumnType,
}

/// The metadata that governs a row set.
#[derive(Debug, PartialEq)]
pub struct ResultMetadata {
    pub col_count: usize,
    pub paging_state: Option<PagingState>,
    pub col_specs: Vec<ColumnSpec>,
}

/// The metadata of a prepared statement's bind parameters.
#[derive(Debug, PartialEq)]
pub struct PreparedMetadata {
    pub col_count: usize,
    pub pk_indexes: Vec<u16>,
    pub col_specs: Vec<ColumnSpec>,
}

/// One decoded row: one optional value per column, in column order.
#[derive(Debug, PartialEq)]
pub struct Row {
    pub columns: Vec<Option<CQLValue>>,
}

/// A decoded row set.
#[derive(Debug, PartialEq)]
pub struct Rows {
    pub metadata: ResultMetadata,
    pub rows_count: usize,
    pub rows: Vec<Row>,
}

/// A prepared-statement handle: the opaque statement id the client must
/// echo back, the bind metadata, and the result metadata.
#[derive(Debug, PartialEq)]
pub struct Prepared {
    pub id: Bytes,
    pub prepared_metadata: PreparedMetadata,
    pub metadata: ResultMetadata,
}

/// A whole decoded RESULT message; exactly one variant per message,
/// selected by the wire's leading kind tag.
#[derive(Debug, PartialEq)]
pub enum ServerResult {
    Void,
    Rows(Rows),
    SetKeyspace(SetKeyspace),
    Prepared(Prepared),
    SchemaChange(SchemaChange),
}

/// The bytes held by a `bytes::Bytes` buffer, as a sequence.
pub uninterp spec fn bytes_content(b: Bytes) -> Seq<u8>;

#[verifier::external_type_specification]
#[verifier::external_body]
pub struct ExBytes(Bytes);

/// Relies on `bytes::Bytes::from(Vec<u8>)`: the new buffer holds exactly
/// the vector's bytes.
#[verifier::external_body]
fn bytes_from_vec(v: Vec<u8>) -> (r: Bytes)
    ensures
        bytes_content(r) == v@,
{
    Bytes::from(v)
}

/// Relies on `bytes::Bytes`'s deref to `[u8]`: it exposes exactly the held
/// bytes (copied out here with `slice::to_vec`).
#[verifier::external_body]
fn bytes_as_vec(b: &Bytes) -> (r: Vec<u8>)
    ensures
        r@ == bytes_content(*b),
{
    b.to_vec()
}

impl Clone for TableSpec {
    /// Clones both names, so the copy has the same view.
    fn clone(&self) -> (r: Self)
        ensures
            view_table_spec(r) == view_table_spec(*self),
    {
        TableSpec { ks_name: self.ks_name.clone(), table_name: self.table_name.clone() }
    }
}

pub open spec fn view_table_spec(t: TableSpec) -> TableSpecV {
    TableSpecV { ks_name: t.ks_name@, table_name: t.table_name@ }
}

pub open spec fn view_col_spec(c: ColumnSpec) -> ColumnSpecV {
    ColumnSpecV { table_spec: view_table_spec(c.table_spec), name: c.name@, typ: c.typ }
}

pub open spec fn view_col_specs(s: Seq<ColumnSpec>) -> Seq<ColumnSpecV> {
    s.map_values(|c: ColumnSpec| view_col_spec(c))
}

pub open spec fn view_metadata(m: ResultMetadata) -> ResultMetadataV {
    ResultMetadataV { col_count: m.col_count as int, col_specs: view_col_specs(m.col_specs@) }
}

pub open spec fn view_prepared_metadata(m: PreparedMetadata) -> PreparedMetadataV {
    PreparedMetadataV {
        col_count: m.col_count as int,
        pk_indexes: m.pk_indexes@,
        col_specs: view_col_specs(m.col_specs@),
    }
}

pub open spec fn view_value(v: CQLValue) -> CQLValueV
    decreases v,
{
    match v {
        CQLValue::Ascii(s) => CQLValueV::Ascii(s@),
        CQLValue::Int(i) => CQLValueV::Int(i),
        CQLValue::Text(s) => CQLValueV::Text(s@),
        CQLValue::SetOf(vs) => CQLValueV::SetOf(
            Seq::new(
                vs@.len(),
                |i: int|
                    if 0 <= i < vs@.len() {
                        view_value(vs[i])
                    } else {
                        CQLValueV::Int(0)
                    },
            ),
        ),
    }
}

pub open spec fn view_values(s: Seq<CQLValue>) -> Seq<CQLValueV> {
    Seq::new(
        s.len(),
        |i: int|
            if 0 <= i < s.len() {
                view_value(s[i])
            } else {
                CQLValueV::Int(0)
            },
    )
}

pub open spec fn view_cell(c: Option<CQLValue>) -> Option<CQLValueV> {
    match c {
        Some(v) => Some(view_value(v)),
        None => None,
    }
}

pub open spec fn view_cells(s: Seq<Option<CQLValue>>) -> Seq<Option<CQLValueV>> {
    s.map_values(|c: Option<CQLValue>| view_cell(c))
}

pub open spec fn view_row(r: Row) -> RowV {
    RowV { columns: view_cells(r.columns@) }
}

pub open spec fn view_rows_seq(s: Seq<Row>) -> Seq<RowV> {
    s.map_values(|r: Row| view_row(r))
}

pub open spec fn view_rows(r: Rows) -> RowsV {
    RowsV {
        metadata: view_metadata(r.metadata),
        rows_count: r.rows_count as int,
        rows: view_rows_seq(r.rows@),
    }
}

pub open spec fn view_prepared(p: Prepared) -> PreparedV {
    PreparedV {
        id: bytes_content(p.id),
        prepared_metadata: view_prepared_metadata(p.prepared_metadata),
        metadata: view_metadata(p.metadata),
    }
}

pub open spec fn view_result(r: ServerResult) -> ServerResultV {
    match r {
        ServerResult::Void => ServerResultV::Void,
        ServerResult::Rows(rows) => ServerResultV::Rows(view_rows(rows)),
        ServerResult::SetKeyspace(_) => ServerResultV::SetKeyspace,
        ServerResult::Prepared(p) => ServerResultV::Prepared(view_prepared(p)),
        ServerResult::SchemaChange(_) => ServerResultV::SchemaChange,
    }
}

/// The `view_value` of a set value, in terms of `view_values`.
pub proof fn lemma_view_value_set(vs: Vec<CQLValue>)
    ensures
        view_value(CQLValue::SetOf(vs)) == CQLValueV::SetOf(view_values(vs@)),
{
    assert(view_value(CQLValue::SetOf(vs))->SetOf_0 =~= view_values(vs@));
}

impl CQLValue {
    /// The held string when this is an `Ascii` value.
    pub fn as_ascii(&self) -> (r: Option<&String>)
        ensures
            match (self, r) {
                (CQLValue::Ascii(s), Some(x)) => x@ == s@,
                (CQLValue::Ascii(_), None) => false,
                (_, Some(_)) => false,
                (_, None) => true,
            },
    {
        match self {
            CQLValue::Ascii(s) => Some(s),
            _ => None,
        }
    }

    /// The held integer when this is an `Int` value.
    pub fn as_int(&self) -> (r: Option<i32>)
        ensures
            r == match *self {
                CQLValue::Int(i) => Some(i),
                _ => None::<i32>,
            },
    {
        match self {
            CQLValue::Int(i) => Some(*i),
            _ => None,
        }
    }

    /// The held string when this is a `Text` value.
    pub fn as_text(&self) -> (r: Option<&String>)
        ensures
            match (self, r) {
                (CQLValue::Text(s), Some(x)) => x@ == s@,
                (CQLValue::Text(_), None) => false,
                (_, Some(_)) => false,
                (_, None) => true,
            },
    {
        match self {
            CQLValue::Text(s) => Some(s),
            _ => None,
        }
    }

    /// The held elements when this is a `Set` value.
    pub fn as_set(&self) -> (r: Option<&Vec<CQLValue>>)
        ensures
            match (self, r) {
                (CQLValue::SetOf(s), Some(x)) => x == s,
                (CQLValue::SetOf(_), None) => false,
                (_, Some(_)) => false,
                (_, None) => true,
            },
    {
        match self {
            CQLValue::SetOf(s) => Some(s),
            _ => None,
        }
    }
}

/// Decodes a type descriptor starting at `start`, returning the descriptor
/// and the position after it.
fn deser_type_at(buf: &[u8], start: usize) -> (res: Result<(ColumnType, usize), DecodeError>)
    requires
        start <= buf@.len(),
    ensures
        match res {
            Ok((t, end)) => start <= end <= buf@.len() && sd_type(buf@.skip(start as int))
                == Ok::<_, DecodeError>((t, buf@.skip(end as int))),
            Err(e) => sd_type(buf@.skip(start as int)) == Err::<(ColumnType, Seq<u8>), _>(e),
        },
    decreases buf@.len() - start,
{
    let mut pos = start;
    let id = match read_u16(buf, &mut pos) {
        Ok(v) => v,
        Err(e) => {
            return Err(e);
        },
    };
    proof {
        assert(buf@.skip(pos as int).len() == buf@.skip(start as int).skip(2).len());
    }
    if id == 0x0001 {
        Ok((ColumnType::Ascii, pos))
    } else if id == 0x0009 {
        Ok((ColumnType::Int, pos))
    } else if id == 0x000D {
        Ok((ColumnType::Text, pos))
    } else if id == 0x0022 {
        match deser_type_at(buf, pos) {
            Ok((t, end)) => Ok((ColumnType::SetOf(Box::new(t)), end)),
            Err(e) => Err(e),
        }
    } else {
        Err(DecodeError::UnsupportedType(id))
    }
}

/// Decodes a column type descriptor at `*pos`, advancing the position.
/// Returns exactly what the grammar's `sd_type` gives for those bytes.
pub fn deser_type(buf: &[u8], pos: &mut usize) -> (r: Result<ColumnType, DecodeError>)
    requires
        *old(pos) <= buf@.len(),
    ensures
        *old(pos) <= *final(pos) <= buf@.len(),
        match r {
            Ok(t) => sd_type(buf@.skip(*old(pos) as int)) == Ok::<_, DecodeError>((
                t,
                buf@.skip(*final(pos) as int),
            )),
            Err(e) => sd_type(buf@.skip(*old(pos) as int)) == Err::<(ColumnType, Seq<u8>), _>(e),
        },
{
    match deser_type_at(buf, *pos) {
        Ok((t, end)) => {
            *pos = end;
            Ok(t)
        },
        Err(e) => Err(e),
    }
}

/// Decodes a table identity — keyspace name, then table name — at `*pos`.
pub fn deser_table_spec(buf: &[u8], pos: &mut usize) -> (r: Result<TableSpec, DecodeError>)
    requires
        *old(pos) <= buf@.len(),
    ensures
        *old(pos) <= *final(pos) <= buf@.len(),
        match r {
            Ok(ts) => sd_table_spec(buf@.skip(*old(pos) as int)) == Ok::<_, DecodeError>((
                view_table_spec(ts),
                buf@.skip(*final(pos) as int),
            )),
            Err(e) => sd_table_spec(buf@.skip(*old(pos) as int)) == Err::<
                (TableSpecV, Seq<u8>),
                _,
            >(e),
        },
{
    let ks_name = match read_string(buf, pos) {
        Ok(s) => s,
        Err(e) => {
            return Err(e);
        },
    };
    let table_name = match read_string(buf, pos) {
        Ok(s) => s,
        Err(e) => {
            return Err(e);
        },
    };
    Ok(TableSpec { ks_name, table_name })
}

/// The view of an optional shared table identity.
pub open spec fn view_opt_table_spec(o: Option<TableSpec>) -> Option<TableSpecV> {
    match o {
        Some(ts) => Some(view_table_spec(ts)),
        None => None,
    }
}

/// Decodes `col_count` column specs at `*pos`, reusing `global_table_spec`
/// for every column when it is given.
#[verifier::rlimit(60)]
pub fn deser_col_specs(
    buf: &[u8],
    pos: &mut usize,
    global_table_spec: &Option<TableSpec>,
    col_count: usize,
) -> (r: Result<Vec<ColumnSpec>, DecodeError>)
    requires
        *old(pos) <= buf@.len(),
    ensures
        *old(pos) <= *final(pos) <= buf@.len(),
        match r {
            Ok(v) => sd_col_specs(
                buf@.skip(*old(pos) as int),
                view_opt_table_spec(*global_table_spec),
                col_count as nat,
            ) == Ok::<_, DecodeError>((view_col_specs(v@), buf@.skip(*final(pos) as int))),
            Err(e) => sd_col_specs(
                buf@.skip(*old(pos) as int),
                view_opt_table_spec(*global_table_spec),
                col_count as nat,
            ) == Err::<(Seq<ColumnSpecV>, Seq<u8>), _>(e),
        },
{
    let ghost s0 = buf@.skip(*old(pos) as int);
    let ghost gv = view_opt_table_spec(*global_table_spec);
    let mut col_specs: Vec<ColumnSpec> = Vec::new();
    let mut i: usize = 0;
    proof {
        assert(view_col_specs(col_specs@) =~= Seq::<ColumnSpecV>::empty());
    }
    while i < col_count
        invariant
            i <= col_count,
            *pos <= buf@.len(),
            *old(pos) <= *pos,
            s0 == buf@.skip(*old(pos) as int),
            gv == view_opt_table_spec(*global_table_spec),
            sd_col_specs(s0, gv, col_count as nat) == (match sd_col_specs(
                buf@.skip(*pos as int),
                gv,
                (col_count - i) as nat,
            ) {
                Ok((tail, rest)) => Ok::<_, DecodeError>((view_col_specs(col_specs@) + tail, rest)),
                Err(e) => Err::<(Seq<ColumnSpecV>, Seq<u8>), _>(e),
            }),
        decreases col_count - i,
    {
        let ghost s_iter = buf@.skip(*pos as int);
        let ghost k = (col_count - i) as nat;
        let table_spec = match global_table_spec {
            Some(spec) => spec.clone(),
            None => match deser_table_spec(buf, pos) {
                Ok(ts) => ts,
                Err(e) => {
                    proof {
                        assert(sd_col_specs(s_iter, gv, k) == Err::<
                            (Seq<ColumnSpecV>, Seq<u8>),
                            _,
                        >(e));
                    }
                    return Err(e);
                },
            },
        };
        proof {
            assert(match gv {
                Some(ts) => Ok::<_, DecodeError>((ts, s_iter)),
                None => sd_table_spec(s_iter),
            } == Ok::<_, DecodeError>((view_table_spec(table_spec), buf@.skip(*pos as int))));
        }
        let name = match read_string(buf, pos) {
            Ok(s) => s,
            Err(e) => {
                proof {
                    assert(sd_col_specs(s_iter, gv, k) == Err::<(Seq<ColumnSpecV>, Seq<u8>), _>(
                        e,
                    ));
                }
                return Err(e);
            },
        };
        let typ = match deser_type(buf, pos) {
            Ok(t) => t,
            Err(e) => {
                proof {
                    assert(sd_col_specs(s_iter, gv, k) == Err::<(Seq<ColumnSpecV>, Seq<u8>), _>(
                        e,
                    ));
                }
                return Err(e);
            },
        };
        let ghost prev = col_specs@;
        let cs = ColumnSpec { table_spec, name, typ };
        col_specs.push(cs);
        i = i + 1;
        proof {
            let csv = view_col_spec(cs);
            assert(view_col_specs(prev.push(cs)) =~= view_col_specs(prev).push(csv));
            match sd_col_specs(buf@.skip(*pos as int), gv, (col_count - i) as nat) {
                Ok((tail, rest)) => {
                    assert(view_col_specs(prev) + (seq![csv] + tail) =~= view_col_specs(
                        prev.push(cs),
                    ) + tail);
                },
                Err(_) => {},
            }
        }
    }
    Ok(col_specs)
}

/// Decodes result metadata at `*pos`: the flags word, the column count,
/// and (unless suppressed) the column specs, shared identity and all.
pub fn deser_result_metadata(buf: &[u8], pos: &mut usize) -> (r: Result<
    ResultMetadata,
    DecodeError,
>)
    requires
        *old(pos) <= buf@.len(),
    ensures
        *old(pos) <= *final(pos) <= buf@.len(),
        match r {
            Ok(m) => sd_result_metadata(buf@.skip(*old(pos) as int)) == Ok::<_, DecodeError>((
                view_metadata(m),
                buf@.skip(*final(pos) as int),
            )),
            Err(e) => sd_result_metadata(buf@.skip(*old(pos) as int)) == Err::<
                (ResultMetadataV, Seq<u8>),
                _,
            >(e),
        },
{
    let flags = match read_i32(buf, pos) {
        Ok(v) => v,
        Err(e) => {
            return Err(e);
        },
    };
    let col_count_raw = match read_i32(buf, pos) {
        Ok(v) => v,
        Err(e) => {
            return Err(e);
        },
    };
    if col_count_raw < 0 {
        return Err(DecodeError::MalformedCount);
    }
    let col_count = col_count_raw as usize;
    if flags & 0x0002 != 0 {
        return Err(DecodeError::UnsupportedPaging);
    }
    let paging_state: Option<PagingState> = None;
    if flags & 0x0004 != 0 {
        let m = ResultMetadata { col_count, paging_state, col_specs: Vec::new() };
        proof {
            assert(view_col_specs(m.col_specs@) =~= Seq::<ColumnSpecV>::empty());
        }
        return Ok(m);
    }
    let global_table_spec: Option<TableSpec> = if flags & 0x0001 != 0 {
        match deser_table_spec(buf, pos) {
            Ok(ts) => Some(ts),
            Err(e) => {
                return Err(e);
            },
        }
    } else {
        None
    };
    let col_specs = match deser_col_specs(buf, pos, &global_table_spec, col_count) {
        Ok(v) => v,
        Err(e) => {
            return Err(e);
        },
    };
    Ok(ResultMetadata { col_count, paging_state, col_specs })
}

/// Decodes prepared-statement metadata at `*pos`: flags, column count,
/// bind-marker count, the bind-index list, then the column specs.
#[verifier::loop_isolation(false)]
pub fn deser_prepared_metadata(buf: &[u8], pos: &mut usize) -> (r: Result<
    PreparedMetadata,
    DecodeError,
>)
    requires
        *old(pos) <= buf@.len(),
    ensures
        *old(pos) <= *final(pos) <= buf@.len(),
        match r {
            Ok(m) => sd_prepared_metadata(buf@.skip(*old(pos) as int)) == Ok::<_, DecodeError>((
                view_prepared_metadata(m),
                buf@.skip(*final(pos) as int),
            )),
            Err(e) => sd_prepared_metadata(buf@.skip(*old(pos) as int)) == Err::<
                (PreparedMetadataV, Seq<u8>),
                _,
            >(e),
        },
{
    let flags = match read_i32(buf, pos) {
        Ok(v) => v,
        Err(e) => {
            return Err(e);
        },
    };
    let col_count_raw = match read_i32(buf, pos) {
        Ok(v) => v,
        Err(e) => {
            return Err(e);
        },
    };
    if col_count_raw < 0 {
        return Err(DecodeError::MalformedCount);
    }
    let col_count = col_count_raw as usize;
    let pk_count_raw = match read_i32(buf, pos) {
        Ok(v) => v,
        Err(e) => {
            return Err(e);
        },
    };
    if pk_count_raw < 0 {
        return Err(DecodeError::MalformedCount);
    }
    let pk_count = pk_count_raw as usize;
    let ghost s_pk = buf@.skip(*pos as int);
    let mut pk_indexes: Vec<u16> = Vec::new();
    let mut j: usize = 0;
    proof {
        assert(pk_indexes@ + Seq::<u16>::empty() =~= pk_indexes@);
    }
    while j < pk_count
        invariant
            j <= pk_count,
            *old(pos) <= *pos <= buf@.len(),
            sd_u16_list(s_pk, pk_count as nat) == (match sd_u16_list(
                buf@.skip(*pos as int),
                (pk_count - j) as nat,
            ) {
                Ok((tail, rest)) => Ok::<_, DecodeError>((pk_indexes@ + tail, rest)),
                Err(e) => Err::<(Seq<u16>, Seq<u8>), _>(e),
            }),
        decreases pk_count - j,
    {
        let ghost s_iter = buf@.skip(*pos as int);
        let x = match read_u16(buf, pos) {
            Ok(v) => v,
            Err(e) => {
                proof {
                    assert(sd_u16_list(s_iter, (pk_count - j) as nat) == Err::<
                        (Seq<u16>, Seq<u8>),
                        _,
                    >(e));
                }
                return Err(e);
            },
        };
        let ghost prev = pk_indexes@;
        pk_indexes.push(x);
        j = j + 1;
        proof {
            match sd_u16_list(buf@.skip(*pos as int), (pk_count - j) as nat) {
                Ok((tail, rest)) => {
                    assert(prev + (seq![x] + tail) =~= prev.push(x) + tail);
                },
                Err(_) => {},
            }
        }
    }
    let global_table_spec: Option<TableSpec> = if flags & 0x0001 != 0 {
        match deser_table_spec(buf, pos) {
            Ok(ts) => Some(ts),
            Err(e) => {
                return Err(e);
            },
        }
    } else {
        None
    };
    let col_specs = match deser_col_specs(buf, pos, &global_table_spec, col_count) {
        Ok(v) => v,
        Err(e) => {
            return Err(e);
        },
    };
    Ok(PreparedMetadata { col_count, pk_indexes, col_specs })
}

/// Decodes one value blob against its type descriptor, consuming the blob
/// exactly; recurses for the elements of a set.
#[verifier::loop_isolation(false)]
#[verifier::rlimit(60)]
pub fn deser_cql_value(typ: &ColumnType, b: &[u8]) -> (r: Result<CQLValue, DecodeError>)
    ensures
        match r {
            Ok(v) => sd_value(*typ, b@) == Ok::<_, DecodeError>(view_value(v)),
            Err(e) => sd_value(*typ, b@) == Err::<CQLValueV, _>(e),
        },
    decreases typ,
{
    match typ {
        ColumnType::Ascii => {
            let mut i: usize = 0;
            while i < b.len()
                invariant
                    i <= b@.len(),
                    forall|k: int| 0 <= k < i ==> b@[k] <= 0x7f,
                decreases b@.len() - i,
            {
                if b[i] > 0x7f {
                    proof {
                        assert(!is_ascii_bytes(b@));
                    }
                    return Err(DecodeError::NotAscii);
                }
                i = i + 1;
            }
            proof {
                assert(is_ascii_bytes(b@));
            }
            match bytes_to_string(slice_to_vec(b)) {
                Some(s) => Ok(CQLValue::Ascii(s)),
                None => Err(DecodeError::InvalidUtf8),
            }
        },
        ColumnType::Int => {
            if b.len() != 4 {
                return Err(DecodeError::BadFixedWidth);
            }
            let mut p: usize = 0;
            proof {
                assert(b@.skip(0) =~= b@);
            }
            match read_i32(b, &mut p) {
                Ok(v) => Ok(CQLValue::Int(v)),
                Err(e) => {
                    proof {
                        assert(false);
                    }
                    Err(e)
                },
            }
        },
        ColumnType::Text => {
            match bytes_to_string(slice_to_vec(b)) {
                Some(s) => Ok(CQLValue::Text(s)),
                None => Err(DecodeError::InvalidUtf8),
            }
        },
        ColumnType::SetOf(et) => {
            let mut p: usize = 0;
            proof {
                assert(b@.skip(0) =~= b@);
            }
            let n_raw = match read_i32(b, &mut p) {
                Ok(v) => v,
                Err(e) => {
                    return Err(e);
                },
            };
            if n_raw < 0 {
                return Err(DecodeError::MalformedCount);
            }
            let n = n_raw as usize;
            let ghost s_el = b@.skip(p as int);
            let mut elems: Vec<CQLValue> = Vec::new();
            let mut j: usize = 0;
            proof {
                assert(view_values(elems@) =~= Seq::<CQLValueV>::empty());
            }
            while j < n
                invariant
                    j <= n,
                    p <= b@.len(),
                    sd_set_elems(**et, s_el, n as nat) == (match sd_set_elems(
                        **et,
                        b@.skip(p as int),
                        (n - j) as nat,
                    ) {
                        Ok((tail, rest)) => Ok::<_, DecodeError>(
                            (view_values(elems@) + tail, rest),
                        ),
                        Err(e) => Err::<(Seq<CQLValueV>, Seq<u8>), _>(e),
                    }),
                decreases n - j,
            {
                let eb = match read_bytes(b, &mut p) {
                    Ok(v) => v,
                    Err(e) => {
                        return Err(e);
                    },
                };
                let ev = match deser_cql_value(&**et, eb.as_slice()) {
                    Ok(v) => v,
                    Err(e) => {
                        return Err(e);
                    },
                };
                let ghost prev = elems@;
                let ghost evv = view_value(ev);
                elems.push(ev);
                j = j + 1;
                proof {
                    assert(view_values(prev.push(ev)) =~= view_values(prev).push(evv));
                    match sd_set_elems(**et, b@.skip(p as int), (n - j) as nat) {
                        Ok((tail, rest)) => {
                            assert(view_values(prev) + (seq![evv] + tail) =~= view_values(
                                prev.push(ev),
                            ) + tail);
                        },
                        Err(_) => {},
                    }
                }
            }
            if p != b.len() {
                return Err(DecodeError::TrailingBytes);
            }
            proof {
                lemma_view_value_set(elems);
                assert(b@.skip(p as int).len() == 0);
                assert(view_values(elems@) + Seq::<CQLValueV>::empty() =~= view_values(elems@));
            }
            Ok(CQLValue::SetOf(elems))
        },
    }
}

/// Decodes a Rows body at `*pos`: result metadata, the row count, then the
/// row grid, each cell typed by its column's descriptor.
#[verifier::loop_isolation(false)]
#[verifier::rlimit(60)]
pub fn deser_rows(buf: &[u8], pos: &mut usize) -> (r: Result<Rows, DecodeError>)
    requires
        *old(pos) <= buf@.len(),
    ensures
        *old(pos) <= *final(pos) <= buf@.len(),
        match r {
            Ok(v) => sd_rows(buf@.skip(*old(pos) as int)) == Ok::<_, DecodeError>((
                view_rows(v),
                buf@.skip(*final(pos) as int),
            )),
            Err(e) => sd_rows(buf@.skip(*old(pos) as int)) == Err::<(RowsV, Seq<u8>), _>(e),
        },
{
    let metadata = match deser_result_metadata(buf, pos) {
        Ok(m) => m,
        Err(e) => {
            return Err(e);
        },
    };
    if metadata.col_specs.len() != metadata.col_count {
        return Err(DecodeError::MetadataSuppressed);
    }
    let rows_count_raw = match read_i32(buf, pos) {
        Ok(v) => v,
        Err(e) => {
            return Err(e);
        },
    };
    if rows_count_raw < 0 {
        return Err(DecodeError::MalformedCount);
    }
    let rows_count = rows_count_raw as usize;
    let ghost typesv = col_types(view_metadata(metadata).col_specs);
    let ghost s_rows = buf@.skip(*pos as int);
    let mut rows: Vec<Row> = Vec::new();
    let mut ri: usize = 0;
    proof {
        assert(typesv.len() == metadata.col_count as int);
        assert(view_rows_seq(rows@) =~= Seq::<RowV>::empty());
    }
    while ri < rows_count
        invariant
            ri <= rows_count,
            *old(pos) <= *pos <= buf@.len(),
            sd_row_list(s_rows, typesv, rows_count as nat) == (match sd_row_list(
                buf@.skip(*pos as int),
                typesv,
                (rows_count - ri) as nat,
            ) {
                Ok((tail, rest)) => Ok::<_, DecodeError>((view_rows_seq(rows@) + tail, rest)),
                Err(e) => Err::<(Seq<RowV>, Seq<u8>), _>(e),
            }),
        decreases rows_count - ri,
    {
        let ghost s_row = buf@.skip(*pos as int);
        let mut columns: Vec<Option<CQLValue>> = Vec::new();
        let mut ci: usize = 0;
        proof {
            assert(view_cells(columns@) =~= Seq::<Option<CQLValueV>>::empty());
            assert(typesv.skip(0) =~= typesv);
        }
        while ci < metadata.col_count
            invariant
                ci <= metadata.col_count,
                *old(pos) <= *pos <= buf@.len(),
                sd_cells(s_row, typesv) == (match sd_cells(
                    buf@.skip(*pos as int),
                    typesv.skip(ci as int),
                ) {
                    Ok((tail, rest)) => Ok::<_, DecodeError>((view_cells(columns@) + tail, rest)),
                    Err(e) => Err::<(Seq<Option<CQLValueV>>, Seq<u8>), _>(e),
                }),
            decreases metadata.col_count - ci,
        {
            let ob = match read_bytes_opt(buf, pos) {
                Ok(v) => v,
                Err(e) => {
                    return Err(e);
                },
            };
            proof {
                assert(typesv.skip(ci as int)[0] == typesv[ci as int]);
                assert(typesv[ci as int] == metadata.col_specs@[ci as int].typ);
            }
            let cell: Option<CQLValue> = match ob {
                Some(eb) => match deser_cql_value(&metadata.col_specs[ci].typ, eb.as_slice()) {
                    Ok(v) => Some(v),
                    Err(e) => {
                        return Err(e);
                    },
                },
                None => None,
            };
            let ghost prevc = columns@;
            let ghost cellv = view_cell(cell);
            columns.push(cell);
            ci = ci + 1;
            proof {
                assert(typesv.skip((ci - 1) as int).drop_first() =~= typesv.skip(ci as int));
                assert(view_cells(prevc.push(cell)) =~= view_cells(prevc).push(cellv));
                match sd_cells(buf@.skip(*pos as int), typesv.skip(ci as int)) {
                    Ok((tail, rest)) => {
                        assert(view_cells(prevc) + (seq![cellv] + tail) =~= view_cells(
                            prevc.push(cell),
                        ) + tail);
                    },
                    Err(_) => {},
                }
            }
        }
        proof {
            assert(typesv.skip(metadata.col_count as int).len() == 0);
            assert(view_cells(columns@) + Seq::<Option<CQLValueV>>::empty() =~= view_cells(
                columns@,
            ));
        }
        let row = Row { columns };
        let ghost rowv = view_row(row);
        let ghost prevr = rows@;
        rows.push(row);
        ri = ri + 1;
        proof {
            assert(view_rows_seq(prevr.push(row)) =~= view_rows_seq(prevr).push(rowv));
            match sd_row_list(buf@.skip(*pos as int), typesv, (rows_count - ri) as nat) {
                Ok((tail, rest)) => {
                    assert(view_rows_seq(prevr) + (seq![rowv] + tail) =~= view_rows_seq(
                        prevr.push(row),
                    ) + tail);
                },
                Err(_) => {},
            }
        }
    }
    proof {
        assert(view_rows_seq(rows@) + Seq::<RowV>::empty() =~= view_rows_seq(rows@));
    }
    Ok(Rows { metadata, rows_count, rows })
}

/// Decodes a "set keyspace" notice: structurally empty in this scope, so
/// nothing is consumed and nothing can fail.
pub fn deser_set_keyspace(buf: &[u8], pos: &mut usize) -> (r: Result<SetKeyspace, DecodeError>)
    requires
        *old(pos) <= buf@.len(),
    ensures
        *final(pos) == *old(pos),
        r == Ok::<SetKeyspace, DecodeError>((SetKeyspace {  })),
{
    Ok(SetKeyspace {  })
}

/// Decodes a schema-change notice: structurally empty in this scope, so
/// nothing is consumed and nothing can fail.
pub fn deser_schema_change(buf: &[u8], pos: &mut usize) -> (r: Result<SchemaChange, DecodeError>)
    requires
        *old(pos) <= buf@.len(),
    ensures
        *final(pos) == *old(pos),
        r == Ok::<SchemaChange, DecodeError>((SchemaChange {  })),
{
    Ok(SchemaChange {  })
}

/// Decodes a Prepared body at `*pos`: the statement id, the bind
/// metadata, then the result metadata.
pub fn deser_prepared(buf: &[u8], pos: &mut usize) -> (r: Result<Prepared, DecodeError>)
    requires
        *old(pos) <= buf@.len(),
    ensures
        *old(pos) <= *final(pos) <= buf@.len(),
        match r {
            Ok(v) => sd_prepared(buf@.skip(*old(pos) as int)) == Ok::<_, DecodeError>((
                view_prepared(v),
                buf@.skip(*final(pos) as int),
            )),
            Err(e) => sd_prepared(buf@.skip(*old(pos) as int)) == Err::<(PreparedV, Seq<u8>), _>(
                e,
            ),
        },
{
    let id_vec = match read_short_bytes(buf, pos) {
        Ok(v) => v,
        Err(e) => {
            return Err(e);
        },
    };
    let id = bytes_from_vec(id_vec);
    let prepared_metadata = match deser_prepared_metadata(buf, pos) {
        Ok(m) => m,
        Err(e) => {
            return Err(e);
        },
    };
    let metadata = match deser_result_metadata(buf, pos) {
        Ok(m) => m,
        Err(e) => {
            return Err(e);
        },
    };
    Ok(Prepared { id, prepared_metadata, metadata })
}

/// Decodes one whole RESULT message from `buf` at `*pos`: reads the 4-byte
/// kind tag and dispatches to the decoder of that kind. Returns exactly
/// what the grammar's `sd_message` gives for those bytes, advancing `*pos`
/// past the consumed body on success.
pub fn deserialize(buf: &[u8], pos: &mut usize) -> (r: Result<ServerResult, DecodeError>)
    requires
        *old(pos) <= buf@.len(),
    ensures
        *old(pos) <= *final(pos) <= buf@.len(),
        match r {
            Ok(v) => sd_message(buf@.skip(*old(pos) as int)) == Ok::<_, DecodeError>((
                view_result(v),
                buf@.skip(*final(pos) as int),
            )),
            Err(e) => sd_message(buf@.skip(*old(pos) as int)) == Err::<
                (ServerResultV, Seq<u8>),
                _,
            >(e),
        },
{
    let kind = match read_i32(buf, pos) {
        Ok(v) => v,
        Err(e) => {
            return Err(e);
        },
    };
    if kind == 0x0001 {
        Ok(ServerResult::Void)
    } else if kind == 0x0002 {
        match deser_rows(buf, pos) {
            Ok(v) => Ok(ServerResult::Rows(v)),
            Err(e) => Err(e),
        }
    } else if kind == 0x0003 {
        match deser_set_keyspace(buf, pos) {
            Ok(v) => Ok(ServerResult::SetKeyspace(v)),
            Err(e) => Err(e),
        }
    } else if kind == 0x0004 {
        match deser_prepared(buf, pos) {
            Ok(v) => Ok(ServerResult::Prepared(v)),
            Err(e) => Err(e),
        }
    } else if kind == 0x0005 {
        match deser_schema_change(buf, pos) {
            Ok(v) => Ok(ServerResult::SchemaChange(v)),
            Err(e) => Err(e),
        }
    } else {
        Err(DecodeError::UnknownResultKind(kind))
    }
}

impl Prepared {
    /// The statement id, copied out as plain bytes.
    pub fn id_bytes(&self) -> (r: Vec<u8>)
        ensures
            r@ == view_prepared(*self).id,
    {
        bytes_as_vec(&self.id)
    }
}

} // verus!
