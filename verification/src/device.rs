//! Chromecast devices as announced in mDNS responses: the records of one
//! response, and the device (name, address, group flag, record summary) that
//! they describe.
use vstd::prelude::*;
use crate::text::{decimal, has_prefix, occurs_in, push_char, push_decimal, starts_with, contains_pattern};

verus! {

/// An IP address: version 4 as its 32-bit big-endian value, version 6 as its
/// 128-bit big-endian value.
#[derive(Clone, Copy, Debug, PartialEq, Eq, Structural)]
pub enum IpAddress {
    V4(u32),
    V6(u128),
}

/// One resource record of an mDNS response, holding what discovery reads.
#[derive(Clone, Debug)]
pub enum DnsRecord {
    /// An IPv4 address record.
    A(u32),
    /// An IPv6 address record and its textual form.
    Aaaa { addr: u128, text: String },
    /// A text record: its `key=value` entries.
    Txt(Vec<String>),
    /// A service record.
    Srv { priority: u16, weight: u16, port: u16, target: String },
    /// A pointer record and the name it points to.
    Ptr(String),
    /// Any other record, with a textual rendering of its content.
    Other(String),
}

/// A Chromecast device or speaker group found on the network.
#[derive(Clone, Debug)]
pub struct ChromecastDevice {
    pub name: String,
    pub ip: IpAddress,
    pub is_group: bool,
    /// One line of text per record of the response that announced it.
    pub records: Vec<String>,
}

/// What a `ChromecastDevice` holds, as mathematical values.
pub struct DeviceView {
    pub name: Seq<char>,
    pub ip: IpAddress,
    pub is_group: bool,
    pub records: Seq<Seq<char>>,
}

/// The characters of each string.
pub open spec fn strings_view(v: Seq<String>) -> Seq<Seq<char>> {
    v.map_values(|s: String| s@)
}

impl View for ChromecastDevice {
    type V = DeviceView;

    open spec fn view(&self) -> DeviceView {
        DeviceView {
            name: self.name@,
            ip: self.ip,
            is_group: self.is_group,
            records: strings_view(self.records@),
        }
    }
}

/// The views of a sequence of devices.
pub open spec fn devices_view(v: Seq<ChromecastDevice>) -> Seq<DeviceView> {
    v.map_values(|d: ChromecastDevice| d@)
}

/// The name a device has when its response carries no `fn=` entry.
pub open spec fn unknown_device_name() -> Seq<char> {
    "Unknown Device"@
}

/// The text in a device's model (`md=` entry) that marks a speaker group.
pub open spec fn group_marker() -> Seq<char> {
    "Google Cast Group"@
}

/// The prefix of the entry that gives a device's friendly name.
pub open spec fn name_key() -> Seq<char> {
    seq!['f', 'n', '=']
}

/// The prefix of the entry that gives a device's model.
pub open spec fn model_key() -> Seq<char> {
    seq!['m', 'd', '=']
}

/// Dotted-decimal form of an IPv4 address, most significant octet first.
pub open spec fn ipv4_text(a: u32) -> Seq<char> {
    decimal((a / 0x100_0000) as nat) + seq!['.'] + decimal(((a / 0x1_0000) % 256) as nat) + seq!['.']
        + decimal(((a / 0x100) % 256) as nat) + seq!['.'] + decimal((a % 256) as nat)
}

/// The summary line of a service record.
pub open spec fn srv_line(priority: u16, weight: u16, port: u16, target: Seq<char>) -> Seq<char> {
    "SRV: priority="@ + decimal(priority as nat) + ", weight="@ + decimal(weight as nat) + ", port="@
        + decimal(port as nat) + ", target="@ + target
}

/// The summary line of one text-record entry.
pub open spec fn txt_line(entry: Seq<char>) -> Seq<char> {
    "TXT: "@ + entry
}

/// What has been read of a response so far: the device's name, its model and
/// the summary lines.
pub struct ScanView {
    pub name: Seq<char>,
    pub model: Seq<char>,
    pub lines: Seq<Seq<char>>,
}

/// Before any record: the default name, an empty model, no lines.
pub open spec fn initial_scan() -> ScanView {
    ScanView { name: unknown_device_name(), model: seq![], lines: seq![] }
}

/// Reading one text-record entry: its line is added; an `fn=` entry sets the
/// name and an `md=` entry the model to the rest of the entry.
pub open spec fn scan_entry(st: ScanView, entry: Seq<char>) -> ScanView {
    let lines = st.lines.push(txt_line(entry));
    if has_prefix(entry, name_key()) {
        ScanView { name: entry.skip(3), model: st.model, lines }
    } else if has_prefix(entry, model_key()) {
        ScanView { name: st.name, model: entry.skip(3), lines }
    } else {
        ScanView { name: st.name, model: st.model, lines }
    }
}

/// Reading the entries of a text record in order.
pub open spec fn scan_entries(st: ScanView, entries: Seq<String>) -> ScanView
    decreases entries.len(),
{
    if entries.len() == 0 {
        st
    } else {
        scan_entry(scan_entries(st, entries.drop_last()), entries.last()@)
    }
}

/// Adding one summary line.
pub open spec fn with_line(st: ScanView, line: Seq<char>) -> ScanView {
    ScanView { name: st.name, model: st.model, lines: st.lines.push(line) }
}

/// Reading one record: a text record is read entry by entry; any other record
/// adds its summary line.
pub open spec fn scan_record(st: ScanView, r: DnsRecord) -> ScanView {
    match r {
        DnsRecord::A(a) => with_line(st, "A: "@ + ipv4_text(a)),
        DnsRecord::Aaaa { addr, text } => with_line(st, "AAAA: "@ + text@),
        DnsRecord::Txt(entries) => scan_entries(st, entries@),
        DnsRecord::Srv { priority, weight, port, target } => with_line(st, srv_line(priority, weight, port, target@)),
        DnsRecord::Ptr(target) => with_line(st, "PTR: "@ + target@),
        DnsRecord::Other(text) => with_line(st, "Other: "@ + text@),
    }
}

/// Reading the records of a response in order.
pub open spec fn scan_records(records: Seq<DnsRecord>) -> ScanView
    decreases records.len(),
{
    if records.len() == 0 {
        initial_scan()
    } else {
        scan_record(scan_records(records.drop_last()), records.last())
    }
}

/// The address of the first address record (IPv4 or IPv6) of a response.
pub open spec fn first_address(records: Seq<DnsRecord>) -> Option<IpAddress>
    decreases records.len(),
{
    if records.len() == 0 {
        None
    } else {
        match records[0] {
            DnsRecord::A(a) => Some(IpAddress::V4(a)),
            DnsRecord::Aaaa { addr, text } => Some(IpAddress::V6(addr)),
            _ => first_address(records.drop_first()),
        }
    }
}

/// The device that a response describes, if it carries an address: its name,
/// its first address, whether its model names a speaker group, and one summary
/// line per record (per entry of a text record).
pub open spec fn response_device(records: Seq<DnsRecord>) -> Option<DeviceView> {
    match first_address(records) {
        None => None,
        Some(ip) => {
            let st = scan_records(records);
            Some(DeviceView {
                name: st.name,
                ip,
                is_group: occurs_in(st.model, group_marker()),
                records: st.lines,
            })
        },
    }
}

/// A response being read.
struct Scan {
    name: String,
    model: String,
    lines: Vec<String>,
}

impl View for Scan {
    type V = ScanView;

    closed spec fn view(&self) -> ScanView {
        ScanView { name: self.name@, model: self.model@, lines: strings_view(self.lines@) }
    }
}

fn text_from(s: &str) -> (r: String)
    ensures
        r@ == s@,
{
    String::from_str(s)
}

proof fn lemma_strings_view_push(v: Seq<String>, s: String)
    ensures
        strings_view(v.push(s)) == strings_view(v).push(s@),
{
    assert(strings_view(v.push(s)) =~= strings_view(v).push(s@));
}

impl Scan {
    fn new() -> (r: Scan)
        ensures
            r@ == initial_scan(),
    {
        let r = Scan { name: text_from("Unknown Device"), model: String::new(), lines: Vec::new() };
        assert(r@.lines =~= Seq::<Seq<char>>::empty());
        r
    }

    fn add_line(&mut self, line: String)
        ensures
            final(self)@ == with_line(old(self)@, line@),
    {
        proof { lemma_strings_view_push(self.lines@, line); }
        self.lines.push(line);
    }

    fn add_entry(&mut self, entry: &String)
        ensures
            final(self)@ == scan_entry(old(self)@, entry@),
    {
        let mut line = text_from("TXT: ");
        line.append(entry.as_str());
        self.add_line(line);
        let e = entry.as_str();
        proof {
            reveal_strlit("fn=");
            reveal_strlit("md=");
            assert("fn="@ =~= name_key());
            assert("md="@ =~= model_key());
        }
        if starts_with(e, "fn=") {
            let n = e.unicode_len();
            self.name = text_from(e.substring_char(3, n));
            assert(e@.subrange(3, n as int) =~= e@.skip(3));
        } else if starts_with(e, "md=") {
            let n = e.unicode_len();
            self.model = text_from(e.substring_char(3, n));
            assert(e@.subrange(3, n as int) =~= e@.skip(3));
        }
    }

    fn add_entries(&mut self, entries: &Vec<String>)
        ensures
            final(self)@ == scan_entries(old(self)@, entries@),
    {
        let ghost start = self@;
        let n = entries.len();
        assert(entries@.take(0) =~= Seq::<String>::empty());
        for j in 0..n
            invariant
                n == entries@.len(),
                self@ == scan_entries(start, entries@.take(j as int)),
        {
            self.add_entry(&entries[j]);
            assert(entries@.take(j + 1).drop_last() =~= entries@.take(j as int));
        }
        assert(entries@.take(n as int) =~= entries@);
    }

    fn add_record(&mut self, r: &DnsRecord)
        ensures
            final(self)@ == scan_record(old(self)@, *r),
    {
        match r {
            DnsRecord::A(a) => {
                let mut line = text_from("A: ");
                push_ipv4(&mut line, *a);
                self.add_line(line);
            },
            DnsRecord::Aaaa { addr, text } => {
                let mut line = text_from("AAAA: ");
                line.append(text.as_str());
                self.add_line(line);
            },
            DnsRecord::Txt(entries) => {
                self.add_entries(entries);
            },
            DnsRecord::Srv { priority, weight, port, target } => {
                let mut line = text_from("SRV: priority=");
                push_decimal(&mut line, *priority as u32);
                line.append(", weight=");
                push_decimal(&mut line, *weight as u32);
                line.append(", port=");
                push_decimal(&mut line, *port as u32);
                line.append(", target=");
                line.append(target.as_str());
                self.add_line(line);
            },
            DnsRecord::Ptr(target) => {
                let mut line = text_from("PTR: ");
                line.append(target.as_str());
                self.add_line(line);
            },
            DnsRecord::Other(text) => {
                let mut line = text_from("Other: ");
                line.append(text.as_str());
                self.add_line(line);
            },
        }
    }
}

fn push_ipv4(s: &mut String, a: u32)
    ensures
        final(s)@ == old(s)@ + ipv4_text(a),
{
    push_decimal(s, a / 0x100_0000);
    push_char(s, '.');
    push_decimal(s, (a / 0x1_0000) % 256);
    push_char(s, '.');
    push_decimal(s, (a / 0x100) % 256);
    push_char(s, '.');
    push_decimal(s, a % 256);
    assert(final(s)@ =~= old(s)@ + ipv4_text(a));
}

/// The address of the first address record of a response.
pub fn response_address(records: &Vec<DnsRecord>) -> (ip: Option<IpAddress>)
    ensures
        ip == first_address(records@),
{
    let n = records.len();
    let mut i: usize = 0;
    assert(records@.skip(0) =~= records@);
    while i < n
        invariant
            n == records@.len(),
            i <= n,
            first_address(records@) == first_address(records@.skip(i as int)),
        decreases n - i,
    {
        match &records[i] {
            DnsRecord::A(a) => {
                return Some(IpAddress::V4(*a));
            },
            DnsRecord::Aaaa { addr, text } => {
                return Some(IpAddress::V6(*addr));
            },
            _ => {},
        }
        assert(records@.skip(i as int).drop_first() =~= records@.skip(i + 1));
        i = i + 1;
    }
    None
}

/// Reads a response: the device it announces, or `None` when it carries no
/// address record.
pub fn device_from_response(records: &Vec<DnsRecord>) -> (device: Option<ChromecastDevice>)
    ensures
        match device {
            Some(d) => response_device(records@) == Some(d@),
            None => response_device(records@) is None,
        },
{
    let mut scan = Scan::new();
    let n = records.len();
    assert(records@.take(0) =~= Seq::<DnsRecord>::empty());
    for i in 0..n
        invariant
            n == records@.len(),
            scan@ == scan_records(records@.take(i as int)),
    {
        scan.add_record(&records[i]);
        assert(records@.take(i + 1).drop_last() =~= records@.take(i as int));
    }
    assert(records@.take(n as int) =~= records@);
    match response_address(records) {
        None => None,
        Some(ip) => {
            let is_group = contains_pattern(scan.model.as_str(), "Google Cast Group");
            Some(ChromecastDevice { name: scan.name, ip, is_group, records: scan.lines })
        },
    }
}

} // verus!
