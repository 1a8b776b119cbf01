//! The snapshot codec and producer.
//!
//! A snapshot is a complete, self-consistent byte representation of the
//! record table at one instant: the record count, then each record's four
//! fields, each field length-prefixed UTF-8.  `snapshot_bytes` is the byte
//! sequence a table encodes to; `parse_snapshot` is the exact meaning of the
//! decoder on every input.  `lemma_snapshot_roundtrip` states the restore
//! guarantee: decoding a table's snapshot yields that table.
//!
//! The producer copies in bounded steps (one record's bytes per step) instead
//! of holding the writers off for one long copy, and retries a bounded number
//! of times when the table is busy; an exhausted budget is a recoverable
//! `SnapshotError`.

use vstd::bytes::{
    lemma_auto_spec_u64_to_from_le_bytes, spec_u64_from_le_bytes, spec_u64_to_le_bytes,
    u64_from_le_bytes, u64_to_le_bytes,
};
use vstd::prelude::*;
use vstd::slice::{slice_subrange, slice_to_vec};
use vstd::utf8::{decode_utf8, encode_utf8, encode_utf8_decode_utf8, encode_utf8_valid_utf8, valid_utf8};

use crate::errors::{SnapshotError, StoreError};
use crate::link::{Record, RecordModel};
use crate::store::{keys_unique, same_key, Store};

verus! {

/// How often a copy attempt that finds the table busy is retried before the
/// whole snapshot attempt fails.
pub const SNAPSHOT_RETRY_BUDGET: usize = 5;

/// One field on the wire: eight length bytes (little endian), then the
/// field's UTF-8 encoding.
pub open spec fn encode_str_bytes(s: Seq<char>) -> Seq<u8> {
    spec_u64_to_le_bytes(encode_utf8(s).len() as u64) + encode_utf8(s)
}

/// One record on the wire: its four fields in order.
pub open spec fn encode_record_bytes(r: RecordModel) -> Seq<u8> {
    encode_str_bytes(r.namespace) + encode_str_bytes(r.short_form) + encode_str_bytes(r.long_form)
        + encode_str_bytes(r.created_at)
}

/// All records on the wire, in table order.
pub open spec fn encode_records_bytes(s: Seq<RecordModel>) -> Seq<u8>
    decreases s.len(),
{
    if s.len() == 0 {
        Seq::empty()
    } else {
        encode_record_bytes(s[0]) + encode_records_bytes(s.drop_first())
    }
}

/// The snapshot of a table: the record count, then the records.
pub open spec fn snapshot_bytes(s: Seq<RecordModel>) -> Seq<u8> {
    spec_u64_to_le_bytes(s.len() as u64) + encode_records_bytes(s)
}

/// A count or length prefix read off the front of the input.
pub open spec fn parse_u64(b: Seq<u8>) -> Option<(u64, Seq<u8>)> {
    if b.len() >= 8 {
        Some((spec_u64_from_le_bytes(b.take(8)), b.skip(8)))
    } else {
        None
    }
}

/// A field read off the front of the input: its length prefix, then exactly
/// that many bytes, which must be valid UTF-8.
pub open spec fn parse_str(b: Seq<u8>) -> Option<(Seq<char>, Seq<u8>)> {
    match parse_u64(b) {
        None => None,
        Some((n, rest)) => if rest.len() >= n && valid_utf8(rest.take(n as int)) {
            Some((decode_utf8(rest.take(n as int)), rest.skip(n as int)))
        } else {
            None
        },
    }
}

/// A record read off the front of the input: four fields in order.
pub open spec fn parse_record(b: Seq<u8>) -> Option<(RecordModel, Seq<u8>)> {
    match parse_str(b) {
        None => None,
        Some((namespace, b1)) => match parse_str(b1) {
            None => None,
            Some((short_form, b2)) => match parse_str(b2) {
                None => None,
                Some((long_form, b3)) => match parse_str(b3) {
                    None => None,
                    Some((created_at, b4)) => Some(
                        (RecordModel { namespace, short_form, long_form, created_at }, b4),
                    ),
                },
            },
        },
    }
}

/// Exactly `n` records read off the front of the input.
pub open spec fn parse_records(b: Seq<u8>, n: nat) -> Option<(Seq<RecordModel>, Seq<u8>)>
    decreases n,
{
    if n == 0 {
        Some((Seq::empty(), b))
    } else {
        match parse_record(b) {
            None => None,
            Some((r, rest)) => match parse_records(rest, (n - 1) as nat) {
                None => None,
                Some((s, rest2)) => Some((seq![r] + s, rest2)),
            },
        }
    }
}

/// The exact meaning of the decoder: the record count, then that many
/// records, then nothing.  Any other shape is not a snapshot.
pub open spec fn parse_snapshot(b: Seq<u8>) -> Option<Seq<RecordModel>> {
    match parse_u64(b) {
        None => None,
        Some((n, rest)) => match parse_records(rest, n as nat) {
            None => None,
            Some((s, rest2)) => if rest2.len() == 0 {
                Some(s)
            } else {
                None
            },
        },
    }
}

/// Whether a field's UTF-8 encoding fits behind an eight-byte length prefix.
/// Every field held in memory does.
pub open spec fn str_fits(s: Seq<char>) -> bool {
    encode_utf8(s).len() < 0x1_0000_0000_0000_0000
}

/// Whether every field of a record fits on the wire.
pub open spec fn record_fits(r: RecordModel) -> bool {
    str_fits(r.namespace) && str_fits(r.short_form) && str_fits(r.long_form) && str_fits(
        r.created_at,
    )
}

/// Whether a table fits on the wire: the count behind its prefix, and every
/// field of every record behind its own.
pub open spec fn snapshot_fits(s: Seq<RecordModel>) -> bool {
    s.len() < 0x1_0000_0000_0000_0000 && forall|i: int|
        0 <= i < s.len() ==> record_fits(#[trigger] s[i])
}

/// Relies on `String::from_utf8`: it succeeds exactly on valid UTF-8 input,
/// and the returned string is the one whose UTF-8 encoding is the input
/// itself.
#[verifier::external_body]
fn string_from_utf8(v: Vec<u8>) -> (r: Option<String>)
    ensures
        match r {
            Some(s) => valid_utf8(v@) && encode_utf8(s@) == v@,
            None => !valid_utf8(v@),
        },
{
    String::from_utf8(v).ok()
}

/// Appends one field's wire form: length prefix, then UTF-8 bytes.
fn encode_str(s: &String, out: &mut Vec<u8>)
    ensures
        final(out)@ == old(out)@ + encode_str_bytes(s@),
{
    let bytes = s.as_str().as_bytes_vec();
    let n: u64 = bytes.len() as u64;
    let mut prefix = u64_to_le_bytes(n);
    out.append(&mut prefix);
    let mut body = bytes;
    out.append(&mut body);
    proof {
        assert(out@ =~= old(out)@ + encode_str_bytes(s@));
    }
}

/// Appends one record's wire form: its four fields in order.
fn encode_record(rec: &Record, out: &mut Vec<u8>)
    ensures
        final(out)@ == old(out)@ + encode_record_bytes(rec@),
{
    encode_str(&rec.namespace, out);
    encode_str(&rec.short_form, out);
    encode_str(&rec.long_form, out);
    encode_str(&rec.created_at, out);
    proof {
        assert(out@ =~= old(out)@ + encode_record_bytes(rec@));
    }
}

/// Appending a record to the table appends its wire form to the wire form of
/// the table.
proof fn lemma_encode_records_push(s: Seq<RecordModel>, x: RecordModel)
    ensures
        encode_records_bytes(s.push(x)) == encode_records_bytes(s) + encode_record_bytes(x),
    decreases s.len(),
{
    if s.len() == 0 {
        reveal_with_fuel(encode_records_bytes, 3);
        assert(s.push(x) =~= seq![x]);
        assert(seq![x].drop_first() =~= Seq::<RecordModel>::empty());
        assert(encode_records_bytes(s.push(x)) =~= encode_records_bytes(s) + encode_record_bytes(
            x,
        ));
    } else {
        lemma_encode_records_push(s.drop_first(), x);
        assert(s.push(x).drop_first() =~= s.drop_first().push(x));
        assert(s.push(x)[0] == s[0]);
        assert(encode_records_bytes(s.push(x)) == encode_record_bytes(s[0])
            + encode_records_bytes(s.drop_first().push(x)));
        assert(encode_record_bytes(s[0]) + (encode_records_bytes(s.drop_first())
            + encode_record_bytes(x)) =~= (encode_record_bytes(s[0]) + encode_records_bytes(
            s.drop_first(),
        )) + encode_record_bytes(x));
        assert(encode_records_bytes(s.push(x)) == encode_records_bytes(s) + encode_record_bytes(
            x,
        ));
    }
}

/// One complete copy of the table into its wire form, one record per step.
pub fn encode_store(store: &Store) -> (r: Vec<u8>)
    ensures
        r@ == snapshot_bytes(store@),
{
    let records = store.records();
    let n = records.len();
    let count: u64 = n as u64;
    let mut out = u64_to_le_bytes(count);
    let ghost s = store@;
    let mut i: usize = 0;
    proof {
        assert(encode_records_bytes(s.take(0)) =~= Seq::<u8>::empty());
        assert(out@ =~= spec_u64_to_le_bytes(count) + encode_records_bytes(s.take(0)));
    }
    while i < n
        invariant
            n == s.len(),
            records.deep_view() == s,
            0 <= i <= n,
            out@ == spec_u64_to_le_bytes(count) + encode_records_bytes(s.take(i as int)),
        decreases n - i,
    {
        let ghost before = out@;
        let row = &records[i];
        proof {
            assert(s[i as int] == records@[i as int]@);
        }
        encode_record(row, &mut out);
        proof {
            assert(s.take(i + 1) =~= s.take(i as int).push(s[i as int]));
            lemma_encode_records_push(s.take(i as int), s[i as int]);
            assert(out@ =~= spec_u64_to_le_bytes(count) + encode_records_bytes(s.take(i + 1)));
        }
        i += 1;
    }
    proof {
        assert(s.take(n as int) =~= s);
    }
    out
}

/// Reads a count or length prefix at `pos`.
fn read_u64(bytes: &Vec<u8>, pos: usize) -> (r: Option<(u64, usize)>)
    requires
        pos <= bytes@.len(),
    ensures
        match r {
            Some(v) => v.1 == pos + 8 && v.1 <= bytes@.len() && parse_u64(bytes@.skip(pos as int))
                == Some((v.0, bytes@.skip(v.1 as int))),
            None => parse_u64(bytes@.skip(pos as int)) is None,
        },
{
    if bytes.len() - pos >= 8 {
        let sl = slice_subrange(bytes.as_slice(), pos, pos + 8);
        let v = u64_from_le_bytes(sl);
        proof {
            assert(bytes@.skip(pos as int).take(8) =~= bytes@.subrange(pos as int, pos + 8));
            assert(bytes@.skip(pos as int).skip(8) =~= bytes@.skip(pos + 8));
        }
        Some((v, pos + 8))
    } else {
        None
    }
}

/// Reads one field at `pos`: length prefix, then exactly that many bytes of
/// UTF-8.
fn read_str(bytes: &Vec<u8>, pos: usize) -> (r: Option<(String, usize)>)
    requires
        pos <= bytes@.len(),
    ensures
        match r {
            Some(v) => v.1 <= bytes@.len() && parse_str(bytes@.skip(pos as int)) == Some(
                (v.0@, bytes@.skip(v.1 as int)),
            ),
            None => parse_str(bytes@.skip(pos as int)) is None,
        },
{
    let prefix = read_u64(bytes, pos);
    match prefix {
        None => None,
        Some((n, p1)) => {
            if (bytes.len() - p1) as u64 >= n {
                let len = n as usize;
                let sl = slice_subrange(bytes.as_slice(), p1, p1 + len);
                let body = slice_to_vec(sl);
                let ghost rest = bytes@.skip(p1 as int);
                proof {
                    assert(rest.len() >= n);
                    assert(rest.take(n as int) =~= bytes@.subrange(p1 as int, p1 + n));
                    assert(rest.skip(n as int) =~= bytes@.skip(p1 + n));
                }
                match string_from_utf8(body) {
                    Some(s) => {
                        proof {
                            encode_utf8_decode_utf8(s@);
                        }
                        Some((s, p1 + len))
                    },
                    None => None,
                }
            } else {
                None
            }
        },
    }
}

/// Reads one record at `pos`: four fields in order.
fn read_record(bytes: &Vec<u8>, pos: usize) -> (r: Option<(Record, usize)>)
    requires
        pos <= bytes@.len(),
    ensures
        match r {
            Some(v) => v.1 <= bytes@.len() && parse_record(bytes@.skip(pos as int)) == Some(
                (v.0@, bytes@.skip(v.1 as int)),
            ),
            None => parse_record(bytes@.skip(pos as int)) is None,
        },
{
    let f1 = read_str(bytes, pos);
    match f1 {
        None => None,
        Some((namespace, p1)) => {
            let f2 = read_str(bytes, p1);
            match f2 {
                None => None,
                Some((short_form, p2)) => {
                    let f3 = read_str(bytes, p2);
                    match f3 {
                        None => None,
                        Some((long_form, p3)) => {
                            let f4 = read_str(bytes, p3);
                            match f4 {
                                None => None,
                                Some((created_at, p4)) => Some(
                                    (Record { namespace, short_form, long_form, created_at }, p4),
                                ),
                            }
                        },
                    }
                },
            }
        },
    }
}

/// Whether two rows collide on the key.
fn rows_same_key(a: &Record, b: &Record) -> (r: bool)
    ensures
        r == same_key(a@, b@),
{
    a.namespace == b.namespace && a.short_form == b.short_form
}

/// Whether the rows' keys are pairwise distinct.
fn records_unique(records: &Vec<Record>) -> (r: bool)
    ensures
        r == keys_unique(records.deep_view()),
{
    let ghost s = records.deep_view();
    let n = records.len();
    let mut i: usize = 0;
    while i < n
        invariant
            n == s.len(),
            records.deep_view() == s,
            0 <= i <= n,
            forall|a: int, b: int| 0 <= a < b < n && a < i ==> !#[trigger] same_key(s[a], s[b]),
        decreases n - i,
    {
        let mut j: usize = i + 1;
        while j < n
            invariant
                n == s.len(),
                records.deep_view() == s,
                0 <= i < j <= n,
                forall|b: int| i < b < j ==> !#[trigger] same_key(s[i as int], s[b]),
            decreases n - j,
        {
            proof {
                assert(s[i as int] == records@[i as int]@);
                assert(s[j as int] == records@[j as int]@);
            }
            if rows_same_key(&records[i], &records[j]) {
                return false;
            }
            j += 1;
        }
        i += 1;
    }
    true
}

/// Where the next record does not parse, no positive number of records
/// parses.
proof fn lemma_parse_records_none(b: Seq<u8>, n: nat)
    requires
        parse_record(b) is None,
        n != 0,
    ensures
        parse_records(b, n) is None,
{
}

/// Where the header parses but the records do not, the input is not a
/// snapshot.
proof fn lemma_parse_snapshot_none(b: Seq<u8>, count: u64)
    requires
        parse_u64(b) == Some((count, b.skip(8))),
        parse_records(b.skip(8), count as nat) is None,
    ensures
        parse_snapshot(b) is None,
{
}

/// Where the header and the records parse, the input is a snapshot exactly
/// when nothing follows the records.
proof fn lemma_parse_snapshot_some(b: Seq<u8>, count: u64, s: Seq<RecordModel>, rest: Seq<u8>)
    requires
        parse_u64(b) == Some((count, b.skip(8))),
        parse_records(b.skip(8), count as nat) == Some((s, rest)),
    ensures
        parse_snapshot(b) == (if rest.len() == 0 {
            Some(s)
        } else {
            None::<Seq<RecordModel>>
        }),
{
}

/// Decodes a snapshot back into a table.  Succeeds exactly on the byte
/// sequences that parse as a snapshot whose keys are unique; the error says
/// which of the two conditions failed.
pub fn decode_store(bytes: &Vec<u8>) -> (r: Result<Store, StoreError>)
    ensures
        match r {
            Ok(st) => st.wf() && parse_snapshot(bytes@) == Some(st@),
            Err(e) => match e {
                StoreError::Malformed => parse_snapshot(bytes@) is None,
                StoreError::DuplicateKey => parse_snapshot(bytes@) matches Some(s)
                    && !keys_unique(s),
                StoreError::Io => false,
            },
        },
{
    let header = read_u64(bytes, 0);
    proof {
        assert(bytes@.skip(0) =~= bytes@);
    }
    match header {
        None => Err(StoreError::Malformed),
        Some((count, start)) => {
            let mut rows: Vec<Record> = Vec::new();
            let mut pos = start;
            let mut i: u64 = 0;
            let ghost after_header = bytes@.skip(start as int);
            proof {
                assert(rows.deep_view() =~= Seq::<RecordModel>::empty());
            }
            while i < count
                invariant
                    0 <= i <= count,
                    pos <= bytes@.len(),
                    parse_u64(bytes@) == Some((count, bytes@.skip(8))),
                    after_header == bytes@.skip(8),
                    rows.deep_view().len() == i,
                    match parse_records(bytes@.skip(pos as int), (count - i) as nat) {
                        Some(v) => parse_records(after_header, count as nat) == Some(
                            ((rows.deep_view() + v.0), v.1),
                        ),
                        None => parse_records(after_header, count as nat) is None,
                    },
                decreases count - i,
            {
                let next = read_record(bytes, pos);
                match next {
                    None => {
                        proof {
                            lemma_parse_records_none(bytes@.skip(pos as int), (count - i) as nat);
                            lemma_parse_snapshot_none(bytes@, count);
                        }
                        return Err(StoreError::Malformed);
                    },
                    Some((row, p2)) => {
                        let ghost rows0 = rows.deep_view();
                        let ghost rv = row@;
                        rows.push(row);
                        proof {
                            assert forall|q: int| 0 <= q < rows.deep_view().len() implies rows.deep_view()[q]
                                == rows0.push(rv)[q] by {
                                assert(rows.deep_view()[q] == rows@[q]@);
                            }
                            assert(rows.deep_view() =~= rows0.push(rv));
                            let pr = parse_records(bytes@.skip(p2 as int), (count - i - 1) as nat);
                            if pr is Some {
                                let v0 = pr.unwrap().0;
                                assert(rows0.push(rv) + v0 =~= rows0 + (seq![rv] + v0));
                            }
                        }
                        pos = p2;
                        i = i + 1;
                    },
                }
            }
            proof {
                assert(parse_records(bytes@.skip(pos as int), 0) == Some(
                    (Seq::<RecordModel>::empty(), bytes@.skip(pos as int)),
                ));
                assert(rows.deep_view() + Seq::<RecordModel>::empty() =~= rows.deep_view());
                lemma_parse_snapshot_some(bytes@, count, rows.deep_view(), bytes@.skip(pos as int));
            }
            if pos != bytes.len() {
                return Err(StoreError::Malformed);
            }
            if records_unique(&rows) {
                Ok(Store::from_records(rows))
            } else {
                Err(StoreError::DuplicateKey)
            }
        },
    }
}

/// A field's wire form followed by anything parses back to the field and
/// that tail.
proof fn lemma_parse_str_roundtrip(s: Seq<char>, tail: Seq<u8>)
    requires
        str_fits(s),
    ensures
        parse_str(encode_str_bytes(s) + tail) == Some((s, tail)),
{
    lemma_auto_spec_u64_to_from_le_bytes();
    let eb = encode_utf8(s);
    let lb = spec_u64_to_le_bytes(eb.len() as u64);
    let whole = encode_str_bytes(s) + tail;
    assert(lb.len() == 8);
    assert(whole.take(8) =~= lb);
    assert(whole.skip(8) =~= eb + tail);
    assert((eb + tail).take(eb.len() as int) =~= eb);
    assert((eb + tail).skip(eb.len() as int) =~= tail);
    encode_utf8_valid_utf8(s);
    encode_utf8_decode_utf8(s);
}

/// A record's wire form followed by anything parses back to the record and
/// that tail.
proof fn lemma_parse_record_roundtrip(r: RecordModel, tail: Seq<u8>)
    requires
        record_fits(r),
    ensures
        parse_record(encode_record_bytes(r) + tail) == Some((r, tail)),
{
    let t3 = encode_str_bytes(r.created_at) + tail;
    let t2 = encode_str_bytes(r.long_form) + t3;
    let t1 = encode_str_bytes(r.short_form) + t2;
    assert(encode_record_bytes(r) + tail =~= encode_str_bytes(r.namespace) + t1);
    lemma_parse_str_roundtrip(r.namespace, t1);
    lemma_parse_str_roundtrip(r.short_form, t2);
    lemma_parse_str_roundtrip(r.long_form, t3);
    lemma_parse_str_roundtrip(r.created_at, tail);
}

/// The records' wire forms followed by anything parse back to the records
/// and that tail.
proof fn lemma_parse_records_roundtrip(s: Seq<RecordModel>, tail: Seq<u8>)
    requires
        forall|i: int| 0 <= i < s.len() ==> record_fits(#[trigger] s[i]),
    ensures
        parse_records(encode_records_bytes(s) + tail, s.len()) == Some((s, tail)),
    decreases s.len(),
{
    if s.len() == 0 {
        assert(encode_records_bytes(s) + tail =~= tail);
        assert(parse_records(tail, 0) == Some((Seq::<RecordModel>::empty(), tail)));
        assert(s =~= Seq::<RecordModel>::empty());
    } else {
        let rest_bytes = encode_records_bytes(s.drop_first()) + tail;
        assert(encode_records_bytes(s) + tail =~= encode_record_bytes(s[0]) + rest_bytes);
        lemma_parse_record_roundtrip(s[0], rest_bytes);
        lemma_parse_records_roundtrip(s.drop_first(), tail);
        assert(seq![s[0]] + s.drop_first() =~= s);
    }
}

/// Snapshot completeness: a table's snapshot, decoded, is that table again —
/// a restore into a fresh store reproduces exactly the records the snapshot
/// captured.
pub proof fn lemma_snapshot_roundtrip(s: Seq<RecordModel>)
    requires
        snapshot_fits(s),
    ensures
        parse_snapshot(snapshot_bytes(s)) == Some(s),
{
    lemma_auto_spec_u64_to_from_le_bytes();
    let whole = snapshot_bytes(s);
    let lb = spec_u64_to_le_bytes(s.len() as u64);
    assert(lb.len() == 8);
    assert(whole.take(8) =~= lb);
    assert(whole.skip(8) =~= encode_records_bytes(s) + Seq::<u8>::empty());
    lemma_parse_records_roundtrip(s, Seq::<u8>::empty());
}

/// Whether copy attempt `k` finds the table busy under the given contention
/// schedule; attempts beyond the schedule find it free.
pub open spec fn attempt_busy(busy: Seq<bool>, k: int) -> bool {
    0 <= k < busy.len() && busy[k]
}

/// One snapshot attempt: retries up to the budget while the table is busy,
/// then copies it whole, one record per bounded step.  `busy` is the
/// contention the attempts encounter.  The result is the table's snapshot
/// exactly when some attempt within the budget found the table free; a
/// `SnapshotError` means the budget was exhausted, which the scheduler treats
/// as recoverable.
pub fn produce_snapshot(store: &Store, busy: &Vec<bool>) -> (r: Result<Vec<u8>, SnapshotError>)
    ensures
        match r {
            Ok(bytes) => bytes@ == snapshot_bytes(store@) && exists|k: int|
                0 <= k < SNAPSHOT_RETRY_BUDGET && !attempt_busy(busy@, k),
            Err(e) => e == SnapshotError::Busy && forall|k: int|
                0 <= k < SNAPSHOT_RETRY_BUDGET ==> attempt_busy(busy@, k),
        },
{
    let mut k: usize = 0;
    while k < SNAPSHOT_RETRY_BUDGET
        invariant
            0 <= k <= SNAPSHOT_RETRY_BUDGET,
            forall|j: int| 0 <= j < k ==> attempt_busy(busy@, j),
        decreases SNAPSHOT_RETRY_BUDGET - k,
    {
        let blocked = k < busy.len() && busy[k];
        if !blocked {
            proof {
                assert(!attempt_busy(busy@, k as int));
            }
            return Ok(encode_store(store));
        }
        k += 1;
    }
    Err(SnapshotError::Busy)
}

} // verus!
