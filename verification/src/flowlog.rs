//! Reading rejected-connection records out of a columnar flow-log file.
//!
//! A flow-log file carries one row per observed connection.  The six
//! columns the engine cares about are found by name in the file's schema;
//! each row whose action was a rejection then yields one attempt record.
//! The columnar decoding itself is the parquet crate's work; everything
//! decided about a row's values is verified here.

use vstd::prelude::*;
use vstd::string::StrSliceExecFns;
use vstd::string::StringSliceAdditionalSpecFns;
use vstd::utf8::decode_utf8;
use vstd::utf8::encode_utf8;
use vstd::utf8::encode_utf8_decode_utf8;

use chrono::TimeZone;
use parquet::file::reader::FileReader;
use parquet::file::reader::SerializedFileReader;
use parquet::record::RowAccessor;
use vstd::string::StringExecFns;

use crate::knock::InetProto;
use crate::net::spec_parsed_ip;
use crate::net::parse_ip;
use crate::net::IpNet;

verus! {

/// One attempt record ready for the attempt store: a rejected connection
/// from a source to a destination, with its protocol, port and event time
/// (seconds since the epoch).
pub struct NewBlock {
    pub src_ip: IpNet,
    pub dst_ip: IpNet,
    pub proto: InetProto,
    pub port: i32,
    pub event_ts: i64,
}

/// One attempt record as the attempt store keeps it: the fields of a
/// `NewBlock` with the store's own row key and insertion time (seconds
/// since the epoch).
#[derive(Clone, Copy, Debug, PartialEq, Eq, Structural)]
pub struct Block {
    pub id: i64,
    pub src_ip: IpNet,
    pub dst_ip: IpNet,
    pub proto: InetProto,
    pub port: i32,
    pub event_ts: i64,
    pub insert_ts: i64,
}

/// Why a row yields no attempt record.
#[derive(Clone, Copy, Debug, PartialEq, Eq, Structural)]
pub enum BlockError {
    /// The action column holds a string other than `REJECT`.
    NotRejected,
    /// The protocol column holds a number that is neither TCP nor UDP.
    UnknownProto,
    /// A column the record needs is missing or of the wrong kind.
    MissingField,
    /// An address column does not parse.
    BadAddress,
    /// The start column does not denote a representable time.
    BadTimestamp,
}

/// Are two strings the same?
fn str_eq(a: &str, b: &str) -> (r: bool)
    ensures
        r == (a@ == b@),
{
    let av = a.as_bytes_vec();
    let bv = b.as_bytes_vec();
    if av.len() != bv.len() {
        return false;
    }
    let mut i: usize = 0;
    while i < av.len()
        invariant
            av@ == a.spec_bytes(),
            bv@ == b.spec_bytes(),
            av@.len() == bv@.len(),
            0 <= i <= av@.len(),
            forall|k: int| 0 <= k < i ==> av@[k] == bv@[k],
        decreases av@.len() - i,
    {
        if av[i] != bv[i] {
            return false;
        }
        i += 1;
    }
    proof {
        // equal byte encodings decode to the same characters
        assert(av@ =~= bv@);
        broadcast use encode_utf8_decode_utf8;

        assert(decode_utf8(encode_utf8(a@)) == decode_utf8(encode_utf8(b@)));
    }
    true
}

/// The column indices gathered while the schema is walked, each still
/// waiting to be seen.
pub struct WantFields {
    pub src: Option<usize>,
    pub dst: Option<usize>,
    pub port: Option<usize>,
    pub proto: Option<usize>,
    pub start: Option<usize>,
    pub action: Option<usize>,
}

/// The six column indices the records are read from.
pub struct Fields {
    pub src: usize,
    pub dst: usize,
    pub port: usize,
    pub proto: usize,
    pub start: usize,
    pub action: usize,
}

/// Is the slot a column name would take still free?
pub open spec fn spec_field_free(w: WantFields, name: Seq<char>) -> bool {
    &&& name == "srcaddr"@ ==> w.src is None
    &&& name == "dstaddr"@ ==> w.dst is None
    &&& name == "dstport"@ ==> w.port is None
    &&& name == "protocol"@ ==> w.proto is None
    &&& name == "start"@ ==> w.start is None
    &&& name == "action"@ ==> w.action is None
}

/// The state after one column name is noted at its index.
pub open spec fn spec_field_upd(w: WantFields, name: Seq<char>, idx: usize) -> WantFields {
    if name == "srcaddr"@ {
        WantFields { src: Some(idx), ..w }
    } else if name == "dstaddr"@ {
        WantFields { dst: Some(idx), ..w }
    } else if name == "dstport"@ {
        WantFields { port: Some(idx), ..w }
    } else if name == "protocol"@ {
        WantFields { proto: Some(idx), ..w }
    } else if name == "start"@ {
        WantFields { start: Some(idx), ..w }
    } else if name == "action"@ {
        WantFields { action: Some(idx), ..w }
    } else {
        w
    }
}

impl WantFields {
    /// No column seen yet.
    pub fn new() -> (r: WantFields)
        ensures
            r == (WantFields {
                src: None,
                dst: None,
                port: None,
                proto: None,
                start: None,
                action: None,
            }),
    {
        WantFields { src: None, dst: None, port: None, proto: None, start: None, action: None }
    }

    /// Note one column of the schema.  A tracked name must not be seen
    /// twice.
    pub fn field(&mut self, field_name: &str, idx: usize)
        requires
            spec_field_free(*old(self), field_name@),
        ensures
            *final(self) == spec_field_upd(*old(self), field_name@, idx),
    {
        if str_eq(field_name, "srcaddr") {
            self.src = Some(idx);
        } else if str_eq(field_name, "dstaddr") {
            self.dst = Some(idx);
        } else if str_eq(field_name, "dstport") {
            self.port = Some(idx);
        } else if str_eq(field_name, "protocol") {
            self.proto = Some(idx);
        } else if str_eq(field_name, "start") {
            self.start = Some(idx);
        } else if str_eq(field_name, "action") {
            self.action = Some(idx);
        }
    }

    /// The gathered indices.  Every tracked column must have been seen.
    pub fn build(self) -> (r: Fields)
        requires
            self.src is Some,
            self.dst is Some,
            self.port is Some,
            self.proto is Some,
            self.start is Some,
            self.action is Some,
        ensures
            Some(r.src) == self.src,
            Some(r.dst) == self.dst,
            Some(r.port) == self.port,
            Some(r.proto) == self.proto,
            Some(r.start) == self.start,
            Some(r.action) == self.action,
    {
        Fields {
            src: self.src.unwrap(),
            dst: self.dst.unwrap(),
            port: self.port.unwrap(),
            proto: self.proto.unwrap(),
            start: self.start.unwrap(),
            action: self.action.unwrap(),
        }
    }
}

/// The state after a whole list of column names is walked.
pub open spec fn spec_scan(names: Seq<Seq<char>>, upto: int) -> WantFields
    decreases upto,
{
    if upto <= 0 {
        WantFields { src: None, dst: None, port: None, proto: None, start: None, action: None }
    } else {
        spec_field_upd(spec_scan(names, upto - 1), names[upto - 1], (upto - 1) as usize)
    }
}

impl Fields {
    /// The six indices, in column order of the record layout.
    pub fn all(&self) -> (r: [usize; 6])
        ensures
            r@ == seq![self.src, self.dst, self.port, self.proto, self.start, self.action],
    {
        let r = [self.src, self.dst, self.port, self.proto, self.start, self.action];
        proof {
            assert(r@ =~= seq![self.src, self.dst, self.port, self.proto, self.start, self.action]);
        }
        r
    }

    /// Find the six columns in a schema's column names.  `None` when a
    /// tracked name is missing or repeated.
    pub fn from_names(names: &Vec<String>) -> (r: Option<Fields>)
        ensures
            r == spec_fields_of(names.deep_view()),
    {
        let mut want = WantFields::new();
        let mut i: usize = 0;
        while i < names.len()
            invariant
                0 <= i <= names@.len(),
                names.deep_view().len() == names@.len(),
                forall|k: int|
                    0 <= k < names@.len() ==> names.deep_view()[k] == #[trigger] names@[k]@,
                want == spec_scan(names.deep_view(), i as int),
                no_dup_names_upto(names.deep_view(), i as int),
            decreases names@.len() - i,
        {
            proof {
                lemma_scan_tracks(names.deep_view(), i as int);
            }
            let name = names[i].as_str();
            if !(str_eq(name, "srcaddr") && want.src.is_some() || str_eq(name, "dstaddr")
                && want.dst.is_some() || str_eq(name, "dstport") && want.port.is_some() || str_eq(
                name,
                "protocol",
            ) && want.proto.is_some() || str_eq(name, "start") && want.start.is_some() || str_eq(
                name,
                "action",
            ) && want.action.is_some()) {
                want.field(name, i);
                proof {
                    let ns = names.deep_view();
                    assert forall|k1: int, k2: int|
                        0 <= k1 < k2 < i + 1 && is_tracked_name(#[trigger] ns[k1]) implies ns[k1]
                        != #[trigger] ns[k2] by {
                        if k2 == i && ns[k1] == ns[k2] {
                            assert(false);
                        }
                    }
                }
                i += 1;
            } else {
                proof {
                    let ns = names.deep_view();
                    let nm = ns[i as int];
                    assert(exists|k: int| 0 <= k < i && ns[k] == nm);
                    let k = choose|k: int| 0 <= k < i && ns[k] == nm;
                    assert(is_tracked_name(ns[k]));
                    assert(!no_dup_names(ns));
                }
                return None;
            }
        }
        proof {
            lemma_scan_tracks(names.deep_view(), names@.len() as int);
        }
        if want.src.is_some() && want.dst.is_some() && want.port.is_some() && want.proto.is_some()
            && want.start.is_some() && want.action.is_some() {
            Some(want.build())
        } else {
            None
        }
    }
}

/// Does a tracked column name stand at two indices of the list's first
/// `upto` names?
pub open spec fn no_dup_names_upto(names: Seq<Seq<char>>, upto: int) -> bool {
    forall|k1: int, k2: int|
        0 <= k1 < k2 < upto && is_tracked_name(#[trigger] names[k1]) ==> names[k1] != #[trigger] names[k2]
}

/// No tracked column name stands at two indices of the list.
pub open spec fn no_dup_names(names: Seq<Seq<char>>) -> bool {
    no_dup_names_upto(names, names.len() as int)
}

/// Is the name one of the six the records are read from?
pub open spec fn is_tracked_name(name: Seq<char>) -> bool {
    ||| name == "srcaddr"@
    ||| name == "dstaddr"@
    ||| name == "dstport"@
    ||| name == "protocol"@
    ||| name == "start"@
    ||| name == "action"@
}

/// After scanning `upto` names, each slot holds an index exactly when its
/// name was seen, and then the index of one occurrence.
proof fn lemma_scan_tracks(names: Seq<Seq<char>>, upto: int)
    requires
        0 <= upto <= names.len(),
        upto <= usize::MAX,
    ensures
        slot_tracks(spec_scan(names, upto).src, names, upto, "srcaddr"@),
        slot_tracks(spec_scan(names, upto).dst, names, upto, "dstaddr"@),
        slot_tracks(spec_scan(names, upto).port, names, upto, "dstport"@),
        slot_tracks(spec_scan(names, upto).proto, names, upto, "protocol"@),
        slot_tracks(spec_scan(names, upto).start, names, upto, "start"@),
        slot_tracks(spec_scan(names, upto).action, names, upto, "action"@),
    decreases upto,
{
    lemma_tracked_names_distinct();
    if upto > 0 {
        lemma_scan_tracks(names, upto - 1);
    }
}

/// The six tracked column names are pairwise different.
proof fn lemma_tracked_names_distinct()
    ensures
        "srcaddr"@ != "dstaddr"@,
        "srcaddr"@ != "dstport"@,
        "srcaddr"@ != "protocol"@,
        "srcaddr"@ != "start"@,
        "srcaddr"@ != "action"@,
        "dstaddr"@ != "dstport"@,
        "dstaddr"@ != "protocol"@,
        "dstaddr"@ != "start"@,
        "dstaddr"@ != "action"@,
        "dstport"@ != "protocol"@,
        "dstport"@ != "start"@,
        "dstport"@ != "action"@,
        "protocol"@ != "start"@,
        "protocol"@ != "action"@,
        "start"@ != "action"@,
{
    reveal_strlit("srcaddr");
    reveal_strlit("dstaddr");
    reveal_strlit("dstport");
    reveal_strlit("protocol");
    reveal_strlit("start");
    reveal_strlit("action");
    assert("srcaddr"@.len() == 7);
    assert("dstaddr"@.len() == 7);
    assert("dstport"@.len() == 7);
    assert("protocol"@.len() == 8);
    assert("start"@.len() == 5);
    assert("action"@.len() == 6);
    assert("srcaddr"@ != "dstaddr"@) by {
        assert("srcaddr"@[0] != "dstaddr"@[0]);
    }
    assert("srcaddr"@ != "dstport"@) by {
        assert("srcaddr"@[0] != "dstport"@[0]);
    }
    assert("dstaddr"@ != "dstport"@) by {
        assert("dstaddr"@[3] != "dstport"@[3]);
    }
}

/// The slot holds an index exactly when the name stands among the first
/// `upto` names, and then an index where it stands.
pub open spec fn slot_tracks(slot: Option<usize>, names: Seq<Seq<char>>, upto: int, name: Seq<char>) -> bool {
    match slot {
        Some(k) => k < upto && names[k as int] == name,
        None => forall|k: int| 0 <= k < upto ==> names[k] != name,
    }
}

/// The six column indices a list of schema column names denotes, when no
/// tracked name is missing or repeated.
pub open spec fn spec_fields_of(names: Seq<Seq<char>>) -> Option<Fields> {
    let w = spec_scan(names, names.len() as int);
    if no_dup_names(names) && w.src is Some && w.dst is Some && w.port is Some && w.proto is Some
        && w.start is Some && w.action is Some {
        Some(
            Fields {
                src: w.src->Some_0,
                dst: w.dst->Some_0,
                port: w.port->Some_0,
                proto: w.proto->Some_0,
                start: w.start->Some_0,
                action: w.action->Some_0,
            },
        )
    } else {
        None
    }
}

/// One decoded row of a columnar flow-log file.
#[verifier::external_type_specification]
#[verifier::external_body]
pub struct ExRow(parquet::record::Row);

/// The string fields a row holds, by field index.  What a row holds
/// depends on the decoded file alone.
pub uninterp spec fn row_strings(row: parquet::record::Row) -> Map<int, Seq<char>>;

/// The 32-bit integer fields a row holds, by field index.
pub uninterp spec fn row_ints(row: parquet::record::Row) -> Map<int, int>;

/// The 64-bit integer fields a row holds, by field index.
pub uninterp spec fn row_longs(row: parquet::record::Row) -> Map<int, int>;

/// Relies on parquet's `RowAccessor::get_string`: the row's field at `i`,
/// exactly when that field holds a string.
#[verifier::external_body]
fn row_get_string(row: &parquet::record::Row, i: usize) -> (r: Option<&String>)
    ensures
        match r {
            Some(s) => row_strings(*row).contains_key(i as int) && s@ == row_strings(*row)[
                i as int],
            None => !row_strings(*row).contains_key(i as int),
        },
{
    row.get_string(i).ok()
}

/// Relies on parquet's `RowAccessor::get_int`: the row's field at `i`,
/// exactly when that field holds a 32-bit integer.
#[verifier::external_body]
fn row_get_int(row: &parquet::record::Row, i: usize) -> (r: Option<i32>)
    ensures
        match r {
            Some(v) => row_ints(*row).contains_key(i as int) && v as int == row_ints(*row)[
                i as int],
            None => !row_ints(*row).contains_key(i as int),
        },
{
    row.get_int(i).ok()
}

/// Relies on parquet's `RowAccessor::get_long`: the row's field at `i`,
/// exactly when that field holds a 64-bit integer.
#[verifier::external_body]
fn row_get_long(row: &parquet::record::Row, i: usize) -> (r: Option<i64>)
    ensures
        match r {
            Some(v) => row_longs(*row).contains_key(i as int) && v as int == row_longs(*row)[
                i as int],
            None => !row_longs(*row).contains_key(i as int),
        },
{
    row.get_long(i).ok()
}

/// Which seconds values denote a representable time.  The answer depends
/// on the value alone.
pub uninterp spec fn spec_ts_in_range(secs: int) -> bool;

/// Relies on chrono's `TimeZone::timestamp_opt`: whether a seconds value
/// denotes a representable UTC time depends on the value alone.
#[verifier::external_body]
fn ts_in_range(secs: i64) -> (r: bool)
    ensures
        r == spec_ts_in_range(secs as int),
{
    chrono::Utc.timestamp_opt(secs, 0).single().is_some()
}

/// The attempt record a row's fields yield, or why they yield none: a row
/// whose action column holds anything but `REJECT` is not a rejection; the
/// protocol number must be TCP or UDP; the addresses must parse; the start
/// column must denote a representable time.
pub open spec fn spec_to_block(
    f: Fields,
    strs: Map<int, Seq<char>>,
    ints: Map<int, int>,
    longs: Map<int, int>,
) -> Result<NewBlock, BlockError> {
    if strs.contains_key(f.action as int) && strs[f.action as int] != "REJECT"@ {
        Err(BlockError::NotRejected)
    } else if !ints.contains_key(f.proto as int) {
        Err(BlockError::MissingField)
    } else if ints[f.proto as int] != 6 && ints[f.proto as int] != 17 {
        Err(BlockError::UnknownProto)
    } else if !strs.contains_key(f.src as int) {
        Err(BlockError::MissingField)
    } else if spec_parsed_ip(strs[f.src as int]) is None {
        Err(BlockError::BadAddress)
    } else if !strs.contains_key(f.dst as int) {
        Err(BlockError::MissingField)
    } else if spec_parsed_ip(strs[f.dst as int]) is None {
        Err(BlockError::BadAddress)
    } else if !ints.contains_key(f.port as int) {
        Err(BlockError::MissingField)
    } else if !longs.contains_key(f.start as int) {
        Err(BlockError::MissingField)
    } else if !spec_ts_in_range(longs[f.start as int]) {
        Err(BlockError::BadTimestamp)
    } else {
        Ok(
            NewBlock {
                src_ip: spec_parsed_ip(strs[f.src as int])->Some_0,
                dst_ip: spec_parsed_ip(strs[f.dst as int])->Some_0,
                proto: if ints[f.proto as int] == 6 {
                    InetProto::Tcp
                } else {
                    InetProto::Udp
                },
                port: ints[f.port as int] as i32,
                event_ts: longs[f.start as int] as i64,
            },
        )
    }
}

impl Fields {
    /// Read one row into an attempt record.
    pub fn to_block(&self, row: &parquet::record::Row) -> (r: Result<NewBlock, BlockError>)
        ensures
            r == spec_to_block(*self, row_strings(*row), row_ints(*row), row_longs(*row)),
    {
        match row_get_string(row, self.action) {
            Some(s) => {
                if !str_eq(s.as_str(), "REJECT") {
                    return Err(BlockError::NotRejected);
                }
            },
            None => {},
        }
        let proto = match row_get_int(row, self.proto) {
            None => {
                return Err(BlockError::MissingField);
            },
            Some(6) => InetProto::Tcp,
            Some(17) => InetProto::Udp,
            Some(_) => {
                return Err(BlockError::UnknownProto);
            },
        };
        let src_ip = match row_get_string(row, self.src) {
            None => {
                return Err(BlockError::MissingField);
            },
            Some(s) => match parse_ip(s.as_str()) {
                None => {
                    return Err(BlockError::BadAddress);
                },
                Some(ip) => ip,
            },
        };
        let dst_ip = match row_get_string(row, self.dst) {
            None => {
                return Err(BlockError::MissingField);
            },
            Some(s) => match parse_ip(s.as_str()) {
                None => {
                    return Err(BlockError::BadAddress);
                },
                Some(ip) => ip,
            },
        };
        let port = match row_get_int(row, self.port) {
            None => {
                return Err(BlockError::MissingField);
            },
            Some(p) => p,
        };
        let start = match row_get_long(row, self.start) {
            None => {
                return Err(BlockError::MissingField);
            },
            Some(t) => t,
        };
        if !ts_in_range(start) {
            return Err(BlockError::BadTimestamp);
        }
        Ok(NewBlock { src_ip, dst_ip, proto, port, event_ts: start })
    }
}

/// The attempt records a sequence of rows yields, in row order; a row that
/// yields none is passed over.
pub open spec fn spec_blocks(f: Fields, rows: Seq<parquet::record::Row>) -> Seq<NewBlock>
    decreases rows.len(),
{
    if rows.len() == 0 {
        Seq::empty()
    } else {
        spec_blocks(f, rows.drop_last()) + (match spec_to_block(
            f,
            row_strings(rows.last()),
            row_ints(rows.last()),
            row_longs(rows.last()),
        ) {
            Ok(b) => seq![b],
            Err(_) => Seq::empty(),
        })
    }
}

/// Read every row of a decoded file: find the six columns in the schema,
/// then gather the record of each rejected row.  `None` exactly when a
/// tracked column is missing or repeated.
pub fn decode_records(names: &Vec<String>, rows: &Vec<parquet::record::Row>) -> (r: Option<
    Vec<NewBlock>,
>)
    ensures
        match spec_fields_of(names.deep_view()) {
            Some(f) => r matches Some(bs) && bs@ == spec_blocks(f, rows@),
            None => r is None,
        },
{
    let fields = match Fields::from_names(names) {
        Some(f) => f,
        None => {
            return None;
        },
    };
    let mut out: Vec<NewBlock> = Vec::new();
    let mut i: usize = 0;
    while i < rows.len()
        invariant
            0 <= i <= rows@.len(),
            out@ =~= spec_blocks(fields, rows@.take(i as int)),
        decreases rows@.len() - i,
    {
        match fields.to_block(&rows[i]) {
            Ok(b) => {
                out.push(b);
            },
            Err(_) => {},
        }
        proof {
            assert(rows@.take(i + 1).drop_last() =~= rows@.take(i as int));
            assert(rows@.take(i + 1).last() == rows@[i as int]);
        }
        i += 1;
    }
    proof {
        assert(rows@.take(rows@.len() as int) =~= rows@);
    }
    Some(out)
}

/// Does the byte string decode as a columnar flow-log file?  The answer
/// depends on the bytes alone.
pub uninterp spec fn spec_file_ok(data: Seq<u8>) -> bool;

/// The schema's column names of a file that decodes.
pub uninterp spec fn spec_file_names(data: Seq<u8>) -> Seq<Seq<char>>;

/// The rows of a file that decodes.
pub uninterp spec fn spec_file_rows(data: Seq<u8>) -> Seq<parquet::record::Row>;

/// Relies on parquet's `SerializedFileReader` (`new`, `metadata`,
/// `get_row_iter`): decodes the columnar file held in `data` and hands
/// back its schema's column names and its rows.  What a byte string
/// decodes to depends on the bytes alone; an unreadable file is an `Err`.
#[verifier::external_body]
fn read_rows(data: Vec<u8>) -> (r: Result<(Vec<String>, Vec<parquet::record::Row>), String>)
    ensures
        r is Ok <==> spec_file_ok(data@),
        r matches Ok((names, rows)) ==> names.deep_view() == spec_file_names(data@) && rows@
            == spec_file_rows(data@),
{
    let reader = SerializedFileReader::new(bytes::Bytes::from(data)).map_err(|e| e.to_string())?;
    let meta = reader.metadata().file_metadata();
    let names = meta.schema_descr().columns().iter().map(|c| c.name().to_string()).collect();
    let mut rows = Vec::new();
    for row in reader.get_row_iter(None).map_err(|e| e.to_string())? {
        rows.push(row.map_err(|e| e.to_string())?);
    }
    Ok((names, rows))
}

/// Decide the attempt records a flow-log file yields.  The columnar
/// decoding is the parquet crate's work; everything read out of the
/// decoded rows is verified (`decode_records`).  `Ok` exactly when the
/// bytes decode and the schema carries the six columns; `Err` carries the
/// decoder's words on a file it cannot read, or names the schema fault.
pub fn add_records(data: Vec<u8>) -> (r: Result<Vec<NewBlock>, String>)
    ensures
        r is Ok <==> spec_file_ok(data@) && spec_fields_of(spec_file_names(data@)) is Some,
        r matches Ok(bs) ==> bs@ == spec_blocks(
            spec_fields_of(spec_file_names(data@))->Some_0,
            spec_file_rows(data@),
        ),
{
    let (names, rows) = match read_rows(data) {
        Ok(nr) => nr,
        Err(e) => {
            return Err(e);
        },
    };
    match decode_records(&names, &rows) {
        Some(blocks) => Ok(blocks),
        None => Err(String::from_str("flow-log schema misses or repeats a needed column")),
    }
}

} // verus!
