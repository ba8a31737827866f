//! Database service client for record storage.
//!
//! This adapter speaks the statically-typed boundary binding: each
//! operation sends typed request values to a host import and receives a
//! typed reply.  The host import itself exists only inside the sandboxed
//! module, so each operation here takes the host's typed reply as an
//! argument and performs the verified part: converting requests to the
//! wire types and replies to the data model.

use vstd::prelude::*;
use crate::json::emit;
use crate::json::jobj_of;
use crate::json::json_parse;
use crate::json::sp_json;
use crate::json::JVal;
use crate::json::Json;
use vstd::utf8::encode_utf8;

verus! {

/// A record returned from the database: an identifier and named field
/// values.
#[derive(Debug)]
pub struct Record {
    pub id: String,
    pub data: Vec<(String, Json)>,
}

/// A paginated list of records.
#[derive(Debug)]
pub struct RecordList {
    pub records: Vec<Record>,
    pub total_count: i64,
    pub page: i64,
    pub page_size: i64,
}

/// Options for listing records.
#[derive(Debug)]
pub struct ListOptions {
    pub filters: Vec<Filter>,
    pub sort: Vec<SortField>,
    pub limit: i64,
    pub offset: i64,
}

/// A filter condition on a field.
#[derive(Debug)]
pub struct Filter {
    pub field: String,
    pub operator: FilterOp,
    pub value: Json,
}

/// Filter operators.
#[derive(Debug, Clone, Copy, PartialEq, Eq, Structural)]
pub enum FilterOp {
    Eq,
    Neq,
    Gt,
    Gte,
    Lt,
    Lte,
    Like,
    In,
    IsNull,
    IsNotNull,
}

/// A sort directive.
#[derive(Debug)]
pub struct SortField {
    pub field: String,
    pub desc: bool,
}

/// Database error type, with a machine-readable kind.
#[derive(Debug)]
pub struct DatabaseError {
    pub kind: String,
    pub message: String,
}

impl DatabaseError {
    /// The `kind: message` rendering of this error.
    pub fn display_string(&self) -> (r: String)
        ensures
            r@ == self.kind@ + ": "@ + self.message@,
    {
        let mut s = crate::text::str_concat(self.kind.as_str(), ": ");
        s.append(self.message.as_str());
        s
    }
}

/// The error codes of the typed boundary binding.
#[derive(Debug, Clone, Copy, PartialEq, Eq, Structural)]
pub enum DbErrorCode {
    NotFound,
    Internal,
}

/// A record in the typed boundary binding: the field values travel as
/// one JSON text.
#[derive(Debug)]
pub struct DbRecord {
    pub id: String,
    pub data: String,
}

/// A filter in the typed boundary binding: the comparison value travels
/// as JSON text.
#[derive(Debug)]
pub struct DbFilter {
    pub field: String,
    pub operator: FilterOp,
    pub value: String,
}

/// A sort directive in the typed boundary binding.
#[derive(Debug)]
pub struct DbSortField {
    pub field: String,
    pub desc: bool,
}

/// List options in the typed boundary binding.
#[derive(Debug)]
pub struct DbListOptions {
    pub filters: Vec<DbFilter>,
    pub sort: Vec<DbSortField>,
    pub limit: i64,
    pub offset: i64,
}

/// A record list in the typed boundary binding.
#[derive(Debug)]
pub struct DbRecordList {
    pub records: Vec<DbRecord>,
    pub total_count: i64,
    pub page: i64,
    pub page_size: i64,
}

/// Map a boundary error code to a structured database error.
pub fn convert_wit_error(e: DbErrorCode) -> (r: DatabaseError)
    ensures
        e == DbErrorCode::NotFound ==> r.kind@ == "not_found"@ && r.message@
            == "record not found"@,
        e == DbErrorCode::Internal ==> r.kind@ == "internal"@ && r.message@
            == "internal database error"@,
{
    match e {
        DbErrorCode::NotFound => DatabaseError {
            kind: String::from_str("not_found"),
            message: String::from_str("record not found"),
        },
        DbErrorCode::Internal => DatabaseError {
            kind: String::from_str("internal"),
            message: String::from_str("internal database error"),
        },
    }
}

/// The field values a record's JSON text decodes to: the members of its
/// object form, or nothing at all.
pub open spec fn record_fields_of(cs: Seq<char>) -> Seq<(Seq<char>, JVal)> {
    match sp_json(cs) {
        Some(JVal::Obj(ms)) => ms,
        _ => Seq::empty(),
    }
}

/// Read a boundary record into the data model, parsing its field values
/// out of the JSON text; text that is not an object yields a record with
/// no fields.
pub fn record_from_wit(r: DbRecord) -> (rec: Record)
    ensures
        rec.id@ == r.id@,
        match crate::text::bytes_chars(encode_utf8(r.data@)) {
            Some(cs) => jobj_of(rec.data@) == record_fields_of(cs),
            None => rec.data@.len() == 0,
        },
{
    let data = match json_parse(r.data.as_str()) {
        Ok(j) => match j {
            Json::Obj(ms) => ms,
            _ => Vec::new(),
        },
        Err(_) => Vec::new(),
    };
    proof {
        vstd::utf8::encode_utf8_decode_utf8(r.data@);
        vstd::utf8::encode_utf8_valid_utf8(r.data@);
        if data@.len() == 0 {
            assert(jobj_of(data@) =~= Seq::<(Seq<char>, JVal)>::empty());
        }
    }
    Record { id: r.id, data }
}

/// Convert a filter to the typed boundary binding, serializing its
/// comparison value as JSON text.
pub fn convert_filter(f: &Filter) -> (r: DbFilter)
    ensures
        r.field@ == f.field@,
        r.operator == f.operator,
        r.value@ == emit(f.value@),
{
    DbFilter {
        field: f.field.clone(),
        operator: f.operator,
        value: crate::json::json_emit(&f.value),
    }
}

/// Convert list options to the typed boundary binding.
pub fn convert_list_options(opts: &ListOptions) -> (r: DbListOptions)
    ensures
        r.limit == opts.limit,
        r.offset == opts.offset,
        r.filters@.len() == opts.filters@.len(),
        forall|i: int|
            0 <= i < opts.filters@.len() ==> (#[trigger] r.filters@[i]).field@
                == opts.filters@[i].field@ && r.filters@[i].operator == opts.filters@[i].operator
                && r.filters@[i].value@ == emit(opts.filters@[i].value@),
        r.sort@.len() == opts.sort@.len(),
        forall|i: int|
            0 <= i < opts.sort@.len() ==> (#[trigger] r.sort@[i]).field@ == opts.sort@[i].field@
                && r.sort@[i].desc == opts.sort@[i].desc,
{
    let mut filters: Vec<DbFilter> = Vec::new();
    let n = opts.filters.len();
    let mut i: usize = 0;
    while i < n
        invariant
            i <= n,
            n == opts.filters@.len(),
            filters@.len() == i,
            forall|w: int|
                0 <= w < i ==> (#[trigger] filters@[w]).field@ == opts.filters@[w].field@
                    && filters@[w].operator == opts.filters@[w].operator && filters@[w].value@
                    == emit(opts.filters@[w].value@),
        decreases n - i,
    {
        filters.push(convert_filter(&opts.filters[i]));
        i += 1;
    }
    let mut sort: Vec<DbSortField> = Vec::new();
    let m = opts.sort.len();
    let mut k: usize = 0;
    while k < m
        invariant
            k <= m,
            m == opts.sort@.len(),
            sort@.len() == k,
            forall|w: int|
                0 <= w < k ==> (#[trigger] sort@[w]).field@ == opts.sort@[w].field@ && sort@[w].desc
                    == opts.sort@[w].desc,
        decreases m - k,
    {
        sort.push(DbSortField { field: opts.sort[k].field.clone(), desc: opts.sort[k].desc });
        k += 1;
    }
    DbListOptions { filters, sort, limit: opts.limit, offset: opts.offset }
}

/// Interpret a single-record reply; the host import that produces the
/// reply exists only inside the sandboxed module.
pub fn get(reply: Result<DbRecord, DbErrorCode>) -> (r: Result<Record, DatabaseError>)
    ensures
        r is Ok <==> reply is Ok,
        reply matches Ok(w) ==> (r matches Ok(rec) && rec.id@ == w.id@),
{
    match reply {
        Ok(w) => Ok(record_from_wit(w)),
        Err(e) => Err(convert_wit_error(e)),
    }
}

/// Interpret a record-creation reply, as [`get`] does.
pub fn create(reply: Result<DbRecord, DbErrorCode>) -> (r: Result<Record, DatabaseError>)
    ensures
        r is Ok <==> reply is Ok,
        reply matches Ok(w) ==> (r matches Ok(rec) && rec.id@ == w.id@),
{
    get(reply)
}

/// Interpret a record-update reply, as [`get`] does.
pub fn update(reply: Result<DbRecord, DbErrorCode>) -> (r: Result<Record, DatabaseError>)
    ensures
        r is Ok <==> reply is Ok,
        reply matches Ok(w) ==> (r matches Ok(rec) && rec.id@ == w.id@),
{
    get(reply)
}

/// Interpret a record-list reply, converting each record.
pub fn list(reply: Result<DbRecordList, DbErrorCode>) -> (r: Result<RecordList, DatabaseError>)
    ensures
        r is Ok <==> reply is Ok,
        reply matches Ok(wl) ==> (r matches Ok(rl) && rl.total_count == wl.total_count && rl.page
            == wl.page && rl.page_size == wl.page_size && rl.records@.len() == wl.records@.len()),
{
    match reply {
        Ok(wl) => {
            let mut records: Vec<Record> = Vec::new();
            let n = wl.records.len();
            let mut i: usize = 0;
            let mut rest = wl.records;
            while i < n
                invariant
                    i <= n,
                    records@.len() == i,
                    rest@.len() == n - i,
                decreases n - i,
            {
                let w = rest.remove(0);
                records.push(record_from_wit(w));
                i += 1;
            }
            Ok(
                RecordList {
                    records,
                    total_count: wl.total_count,
                    page: wl.page,
                    page_size: wl.page_size,
                },
            )
        },
        Err(e) => Err(convert_wit_error(e)),
    }
}

/// Interpret a deletion reply.
pub fn delete(reply: Result<(), DbErrorCode>) -> (r: Result<(), DatabaseError>)
    ensures
        r is Ok <==> reply is Ok,
{
    match reply {
        Ok(()) => Ok(()),
        Err(e) => Err(convert_wit_error(e)),
    }
}

/// Interpret a counting reply.
pub fn count(reply: Result<i64, DbErrorCode>) -> (r: Result<i64, DatabaseError>)
    ensures
        r is Ok <==> reply is Ok,
        reply matches Ok(n) ==> r == Ok::<i64, DatabaseError>(n),
{
    match reply {
        Ok(n) => Ok(n),
        Err(e) => Err(convert_wit_error(e)),
    }
}

/// Interpret a raw-query reply, converting each record.
pub fn query_raw(reply: Result<Vec<DbRecord>, DbErrorCode>) -> (r: Result<
    Vec<Record>,
    DatabaseError,
>)
    ensures
        r is Ok <==> reply is Ok,
        reply matches Ok(ws) ==> (r matches Ok(recs) && recs@.len() == ws@.len()),
{
    match reply {
        Ok(ws) => {
            let n = ws.len();
            let mut records: Vec<Record> = Vec::new();
            let mut rest = ws;
            let mut i: usize = 0;
            while i < n
                invariant
                    i <= n,
                    records@.len() == i,
                    rest@.len() == n - i,
                decreases n - i,
            {
                let w = rest.remove(0);
                records.push(record_from_wit(w));
                i += 1;
            }
            Ok(records)
        },
        Err(e) => Err(convert_wit_error(e)),
    }
}

/// Interpret a raw-statement reply: the number of affected rows.
pub fn exec_raw(reply: Result<i64, DbErrorCode>) -> (r: Result<i64, DatabaseError>)
    ensures
        r is Ok <==> reply is Ok,
        reply matches Ok(n) ==> r == Ok::<i64, DatabaseError>(n),
{
    match reply {
        Ok(n) => Ok(n),
        Err(e) => Err(convert_wit_error(e)),
    }
}

/// Serialize the named field values of a request as one JSON text, as
/// the typed binding carries them.
pub fn encode_record_data(data: Vec<(String, Json)>) -> (r: String)
    ensures
        r@ == emit(JVal::Obj(jobj_of(data@))),
{
    crate::json::json_emit(&Json::Obj(data))
}

} // verus!
