//! Turning the fields of a line into a flow record.

use vstd::prelude::*;
use crate::field_map::FieldMap;
use crate::model::{empty_entry, Entry, EntryView, SkipReason, Timestamp};
use crate::parser::{fields_of, parse_line};
use crate::text::{i32_of, parse_i32};

verus! {

/// The instant that an RFC 3339 timestamp names, with its offset, or `None` where
/// the text is not one.
pub uninterp spec fn rfc3339_of(s: Seq<char>) -> Option<Timestamp>;

/// Relies on chrono's `DateTime::parse_from_rfc3339`, whose result depends on the
/// text alone; the instant is handed back as seconds since the epoch, nanoseconds
/// and offset.
#[verifier::external_body]
fn parse_timestamp(s: &str) -> (r: Option<Timestamp>)
    ensures
        r == rfc3339_of(s@),
{
    match chrono::DateTime::parse_from_rfc3339(s) {
        Ok(t) => Some(
            Timestamp {
                seconds: t.timestamp(),
                nanos: t.timestamp_subsec_nanos(),
                offset_seconds: t.offset().local_minus_utc(),
            },
        ),
        Err(_) => None,
    }
}

/// The number under `k`, zero where `k` is absent, `None` where it is not an `i32`.
pub open spec fn int_field(m: Map<Seq<char>, Seq<char>>, k: Seq<char>) -> Option<i32> {
    if m.contains_key(k) {
        i32_of(m[k])
    } else {
        Some(0)
    }
}

/// The text under `k`, empty where `k` is absent.
pub open spec fn text_field(m: Map<Seq<char>, Seq<char>>, k: Seq<char>) -> Seq<char> {
    if m.contains_key(k) {
        m[k]
    } else {
        Seq::empty()
    }
}

/// Each of the integer fields is absent or a decimal `i32`.
pub open spec fn integers_ok(m: Map<Seq<char>, Seq<char>>) -> bool {
    &&& int_field(m, "ID"@) is Some
    &&& int_field(m, "LEN"@) is Some
    &&& int_field(m, "SPT"@) is Some
    &&& int_field(m, "DPT"@) is Some
}

/// The record that fields `m` give, with `logged_at` as its timestamp.
pub open spec fn record_with(m: Map<Seq<char>, Seq<char>>, logged_at: Option<Timestamp>) -> Result<
    EntryView,
    SkipReason,
> {
    if !integers_ok(m) {
        Err(SkipReason::BadInteger)
    } else {
        Ok(
            EntryView {
                src_ip: text_field(m, "SRC"@),
                src_port: int_field(m, "SPT"@)->0,
                dst_ip: text_field(m, "DST"@),
                dst_port: int_field(m, "DPT"@)->0,
                packet_size: int_field(m, "LEN"@)->0,
                packet_id: int_field(m, "ID"@)->0,
                protocol: text_field(m, "PROTO"@),
                flow_type: text_field(m, "FLOW_TYPE"@),
                rule_id: text_field(m, "RULE_ID"@),
                in_interface: text_field(m, "IN"@),
                out_interface: if m.contains_key("OUT"@) {
                    Some(m["OUT"@])
                } else {
                    None
                },
                fw_action: text_field(m, "FW_ACTION"@),
                logged_at,
                ..empty_entry()
            },
        )
    }
}

/// The record that fields `m` give: a `LOGGED_AT` that is not a timestamp fails
/// first, then a malformed number.
pub open spec fn record_of(m: Map<Seq<char>, Seq<char>>) -> Result<EntryView, SkipReason> {
    if m.contains_key("LOGGED_AT"@) {
        match rfc3339_of(m["LOGGED_AT"@]) {
            None => Err(SkipReason::BadTimestamp),
            Some(t) => record_with(m, Some(t)),
        }
    } else {
        record_with(m, None)
    }
}

/// What ingesting one line yields.
pub open spec fn line_record(line: Seq<char>) -> Result<EntryView, SkipReason> {
    match fields_of(line) {
        None => Err(SkipReason::Malformed),
        Some(m) => record_of(m),
    }
}

/// An outcome with its record, if any, seen through its view.
pub open spec fn outcome_view(r: Result<Entry, SkipReason>) -> Result<EntryView, SkipReason> {
    match r {
        Ok(e) => Ok(e@),
        Err(x) => Err(x),
    }
}

fn int_value(fields: &FieldMap, key: &str) -> (r: Result<i32, SkipReason>)
    requires
        fields.wf(),
    ensures
        match r {
            Ok(v) => int_field(fields@, key@) == Some(v),
            Err(x) => x == SkipReason::BadInteger && int_field(fields@, key@) is None,
        },
{
    match fields.get(key) {
        None => Ok(0),
        Some(v) => match parse_i32(v.as_str()) {
            Some(n) => Ok(n),
            None => Err(SkipReason::BadInteger),
        },
    }
}

fn text_value(fields: &FieldMap, key: &str) -> (r: String)
    requires
        fields.wf(),
    ensures
        r@ == text_field(fields@, key@),
{
    match fields.get(key) {
        None => String::new(),
        Some(v) => v.clone(),
    }
}

/// Builds the record that `fields` give, taking `logged_at` as its timestamp.
pub fn assemble_record(fields: &FieldMap, logged_at: Option<Timestamp>) -> (r: Result<
    Entry,
    SkipReason,
>)
    requires
        fields.wf(),
    ensures
        outcome_view(r) == record_with(fields@, logged_at),
{
    let packet_id = match int_value(fields, "ID") {
        Ok(v) => v,
        Err(x) => return Err(x),
    };
    let packet_size = match int_value(fields, "LEN") {
        Ok(v) => v,
        Err(x) => return Err(x),
    };
    let src_port = match int_value(fields, "SPT") {
        Ok(v) => v,
        Err(x) => return Err(x),
    };
    let dst_port = match int_value(fields, "DPT") {
        Ok(v) => v,
        Err(x) => return Err(x),
    };
    let mut entry = Entry::new();
    entry.packet_id = packet_id;
    entry.packet_size = packet_size;
    entry.src_port = src_port;
    entry.dst_port = dst_port;
    entry.src_ip = text_value(fields, "SRC");
    entry.dst_ip = text_value(fields, "DST");
    entry.protocol = text_value(fields, "PROTO");
    entry.flow_type = text_value(fields, "FLOW_TYPE");
    entry.rule_id = text_value(fields, "RULE_ID");
    entry.in_interface = text_value(fields, "IN");
    entry.fw_action = text_value(fields, "FW_ACTION");
    entry.out_interface = match fields.get("OUT") {
        Some(v) => Some(v.clone()),
        None => None,
    };
    entry.logged_at = logged_at;
    proof {
        assert(entry@ == record_with(fields@, logged_at)->Ok_0);
    }
    Ok(entry)
}

/// Builds the record that `fields` give; keys it does not know are ignored.
pub fn build_record(fields: &FieldMap) -> (r: Result<Entry, SkipReason>)
    requires
        fields.wf(),
    ensures
        outcome_view(r) == record_of(fields@),
{
    let logged_at = match fields.get("LOGGED_AT") {
        Some(v) => match parse_timestamp(v.as_str()) {
            Some(t) => Some(t),
            None => return Err(SkipReason::BadTimestamp),
        },
        None => None,
    };
    assemble_record(fields, logged_at)
}

/// Reads one log line into a record, or says why the line is skipped.
pub fn ingest_line(line: &str) -> (r: Result<Entry, SkipReason>)
    ensures
        outcome_view(r) == line_record(line@),
{
    match parse_line(line) {
        Ok(fields) => build_record(&fields),
        Err(_) => Err(SkipReason::Malformed),
    }
}

} // verus!
