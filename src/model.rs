//! The flow record and the outcomes of reading one line.

use vstd::prelude::*;

verus! {

/// A log line, or its rule annotation, does not have the expected shape.
#[derive(Debug, Clone, Copy, PartialEq, Eq, Structural)]
pub struct OutOfBounds;

/// Why a line produced no record.
#[derive(Debug, Clone, Copy, PartialEq, Eq, Structural)]
pub enum SkipReason {
    /// Too few tokens, or a rule annotation of the wrong shape.
    Malformed,
    /// `ID`, `LEN`, `SPT` or `DPT` is not a decimal `i32`.
    BadInteger,
    /// `LOGGED_AT` is not an RFC 3339 timestamp.
    BadTimestamp,
}

/// An instant with the UTC offset it was written in.
#[derive(Debug, Clone, Copy, PartialEq, Eq, Structural)]
pub struct Timestamp {
    /// Whole seconds since 1970-01-01T00:00:00Z, leap seconds not counted.
    pub seconds: i64,
    /// Nanoseconds past `seconds`.
    pub nanos: u32,
    /// Local time minus UTC, in seconds.
    pub offset_seconds: i32,
}

/// One logged packet.
#[derive(Debug, Clone, PartialEq)]
pub struct Entry {
    pub id: i64,
    pub src_ip: String,
    pub src_port: i32,
    pub dst_ip: String,
    pub dst_port: i32,
    pub packet_size: i32,
    pub packet_id: i32,
    pub protocol: String,
    pub flow_type: String,
    pub rule_id: String,
    pub in_interface: String,
    pub out_interface: Option<String>,
    pub fw_action: String,
    pub logged_at: Option<Timestamp>,
}

/// The contents of an `Entry`, with text as character sequences.
pub struct EntryView {
    pub id: i64,
    pub src_ip: Seq<char>,
    pub src_port: i32,
    pub dst_ip: Seq<char>,
    pub dst_port: i32,
    pub packet_size: i32,
    pub packet_id: i32,
    pub protocol: Seq<char>,
    pub flow_type: Seq<char>,
    pub rule_id: Seq<char>,
    pub in_interface: Seq<char>,
    pub out_interface: Option<Seq<char>>,
    pub fw_action: Seq<char>,
    pub logged_at: Option<Timestamp>,
}

/// An optional text seen as an optional character sequence.
pub open spec fn opt_text_view(o: Option<String>) -> Option<Seq<char>> {
    match o {
        Some(s) => Some(s@),
        None => None,
    }
}

impl View for Entry {
    type V = EntryView;

    open spec fn view(&self) -> EntryView {
        EntryView {
            id: self.id,
            src_ip: self.src_ip@,
            src_port: self.src_port,
            dst_ip: self.dst_ip@,
            dst_port: self.dst_port,
            packet_size: self.packet_size,
            packet_id: self.packet_id,
            protocol: self.protocol@,
            flow_type: self.flow_type@,
            rule_id: self.rule_id@,
            in_interface: self.in_interface@,
            out_interface: opt_text_view(self.out_interface),
            fw_action: self.fw_action@,
            logged_at: self.logged_at,
        }
    }
}

/// A record with every number zero, every text empty and nothing optional set.
pub open spec fn empty_entry() -> EntryView {
    EntryView {
        id: 0,
        src_ip: Seq::empty(),
        src_port: 0,
        dst_ip: Seq::empty(),
        dst_port: 0,
        packet_size: 0,
        packet_id: 0,
        protocol: Seq::empty(),
        flow_type: Seq::empty(),
        rule_id: Seq::empty(),
        in_interface: Seq::empty(),
        out_interface: None,
        fw_action: Seq::empty(),
        logged_at: None,
    }
}

impl Entry {
    pub fn new() -> (r: Entry)
        ensures
            r@ == empty_entry(),
    {
        Entry {
            id: 0,
            src_ip: String::new(),
            src_port: 0,
            dst_ip: String::new(),
            dst_port: 0,
            packet_size: 0,
            packet_id: 0,
            protocol: String::new(),
            flow_type: String::new(),
            rule_id: String::new(),
            in_interface: String::new(),
            out_interface: None,
            fw_action: String::new(),
            logged_at: None,
        }
    }
}

impl Default for Entry {
    fn default() -> (r: Entry)
        ensures
            r@ == empty_entry(),
    {
        Entry::new()
    }
}

} // verus!
