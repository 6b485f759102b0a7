//! GBX files: the magic and binary prefix, the location of the XML header
//! between `<header ` and `</header>`, and the replay summary built from it.
pub mod replay_parser;
pub mod header_fields;

use vstd::prelude::*;
use vstd::string::*;

use crate::gbx_parser::replay_parser::{
    matches_replay_outcome, race_time_text, replay_outcome, strip_format_codes,
    xml_reader_events, GbxReplayHeader, ReplayHeaderModel, ReplayOutcome,
};
use crate::text::trimmed;

verus! {

broadcast use vstd::slice::group_slice_axioms;

/// `std::io::Error`, carried as an opaque value.
#[verifier::external_type_specification]
#[verifier::external_body]
pub struct ExIoError(std::io::Error);

/// Why a GBX file could not be read.
#[derive(Debug)]
pub enum ParseError {
    MissingGBXMagic,
    FileTooShort,
    HeaderNotFound,
    XMLParse(xml::reader::Error),
    HeaderValue(std::num::ParseIntError),
    IO(std::io::Error),
}

/// The text `xml::reader::Error` displays; not described here.
#[verifier::external_body]
fn xml_error_text(e: &xml::reader::Error) -> String {
    e.to_string()
}

/// The text `std::num::ParseIntError` displays; not described here.
#[verifier::external_body]
fn int_error_text(e: &std::num::ParseIntError) -> String {
    e.to_string()
}

/// The text `std::io::Error` displays; not described here.
#[verifier::external_body]
fn io_error_text(e: &std::io::Error) -> String {
    e.to_string()
}

/// `m` is the message `e` is shown with; the text of a wrapped error is
/// left open.
pub open spec fn is_parse_message_of(e: &ParseError, m: Seq<char>) -> bool {
    match e {
        ParseError::MissingGBXMagic => m == "Missing GBX Magic"@,
        ParseError::FileTooShort => m == "File is too short"@,
        ParseError::HeaderNotFound => m == "Header not found"@,
        ParseError::XMLParse(_) => exists|t: Seq<char>| m == "XML parsing error: "@ + t,
        ParseError::HeaderValue(_) => exists|t: Seq<char>| m == "Header value error: "@ + t,
        ParseError::IO(_) => exists|t: Seq<char>| m == "IO error: "@ + t,
    }
}

impl ParseError {
    /// The message the error is shown with.
    pub fn message(&self) -> (m: String)
        ensures
            is_parse_message_of(self, m@),
    {
        match self {
            ParseError::MissingGBXMagic => String::from_str("Missing GBX Magic"),
            ParseError::FileTooShort => String::from_str("File is too short"),
            ParseError::HeaderNotFound => String::from_str("Header not found"),
            ParseError::XMLParse(e) => {
                let mut m = String::from_str("XML parsing error: ");
                let t = xml_error_text(e);
                m.append(t.as_str());
                m
            },
            ParseError::HeaderValue(e) => {
                let mut m = String::from_str("Header value error: ");
                let t = int_error_text(e);
                m.append(t.as_str());
                m
            },
            ParseError::IO(e) => {
                let mut m = String::from_str("IO error: ");
                let t = io_error_text(e);
                m.append(t.as_str());
                m
            },
        }
    }
}

/// The bytes of `<header `, which opens the XML header.
pub open spec fn header_start_token() -> Seq<u8> {
    seq![60u8, 104u8, 101u8, 97u8, 100u8, 101u8, 114u8, 32u8]
}

/// The bytes of `</header>`, which closes the XML header.
pub open spec fn header_end_token() -> Seq<u8> {
    seq![60u8, 47u8, 104u8, 101u8, 97u8, 100u8, 101u8, 114u8, 62u8]
}

/// The file starts with the bytes `GBX`.
pub open spec fn has_gbx_magic(b: Seq<u8>) -> bool {
    b.len() >= 3 && b[0] == 71u8 && b[1] == 66u8 && b[2] == 88u8
}

/// `needle` occurs in `buf` at position `i`.
pub open spec fn occurs_at(buf: Seq<u8>, needle: Seq<u8>, i: int) -> bool {
    0 <= i && i + needle.len() <= buf.len() && buf.subrange(i, i + needle.len()) == needle
}

/// The first position at or after `i` where `needle` occurs in `buf`.
pub open spec fn first_occurrence_from(buf: Seq<u8>, needle: Seq<u8>, i: int) -> Option<int>
    decreases buf.len() + 1 - i,
{
    if i < 0 || i + needle.len() > buf.len() {
        None
    } else if occurs_at(buf, needle, i) {
        Some(i)
    } else {
        first_occurrence_from(buf, needle, i + 1)
    }
}

/// The first position where `needle` occurs in `buf`.
pub open spec fn first_occurrence(buf: Seq<u8>, needle: Seq<u8>) -> Option<int> {
    first_occurrence_from(buf, needle, 0)
}

/// Where the XML header lies: from the first `<header ` after the 13-byte
/// binary prefix to the end of the first `</header>` after it.
pub open spec fn header_bounds(b: Seq<u8>) -> Option<(int, int)> {
    match first_occurrence(b.skip(13), header_start_token()) {
        None => None,
        Some(p) => {
            let start = p + 13;
            match first_occurrence(b.skip(start), header_end_token()) {
                None => None,
                Some(q) => Some((start, q + start + header_end_token().len())),
            }
        },
    }
}

/// Bytes appended after `buf` do not move a first occurrence found in it.
pub proof fn lemma_first_occurrence_extend(buf: Seq<u8>, tail: Seq<u8>, needle: Seq<u8>, i: int)
    requires
        first_occurrence_from(buf, needle, i) is Some,
    ensures
        first_occurrence_from(buf + tail, needle, i) == first_occurrence_from(buf, needle, i),
    decreases buf.len() + 1 - i,
{
    let big = buf + tail;
    assert(big.subrange(i, i + needle.len()) =~= buf.subrange(i, i + needle.len()));
    if !occurs_at(buf, needle, i) {
        lemma_first_occurrence_extend(buf, tail, needle, i + 1);
    }
}

/// The map data after the XML header is never read: once the header of a
/// file is found, bytes appended to the file change nothing of what
/// parsing it gives.
pub proof fn lemma_trailing_bytes_unread(b: Seq<u8>, tail: Seq<u8>)
    requires
        b.len() >= 13,
        header_bounds(b) is Some,
    ensures
        gbx_outcome(b + tail) == gbx_outcome(b),
        header_bounds(b + tail) == header_bounds(b),
{
    let big = b + tail;
    assert(big.skip(13) =~= b.skip(13) + tail);
    let p = first_occurrence(b.skip(13), header_start_token()).unwrap();
    lemma_first_occurrence_extend(b.skip(13), tail, header_start_token(), 0);
    let start = p + 13;
    assert(0 <= p && p + header_start_token().len() <= b.skip(13).len()) by {
        lemma_first_occurrence_found(b.skip(13), header_start_token(), 0);
    }
    assert(big.skip(start) =~= b.skip(start) + tail);
    lemma_first_occurrence_extend(b.skip(start), tail, header_end_token(), 0);
    let q = first_occurrence(b.skip(start), header_end_token()).unwrap();
    lemma_first_occurrence_found(b.skip(start), header_end_token(), 0);
    let end = q + start + header_end_token().len();
    assert(big.subrange(start, end) =~= b.subrange(start, end));
    assert(big[3] == b[3] && big[4] == b[4] && big[9] == b[9] && big[10] == b[10]);
    assert(big[11] == b[11] && big[12] == b[12] && big[0] == b[0] && big[1] == b[1] && big[2] == b[2]);
}

/// No occurrence lies between `i` and the first one found from `i`, and
/// none at or after `i` when none is found.
proof fn lemma_first_occurrence_least(buf: Seq<u8>, needle: Seq<u8>, i: int)
    requires
        0 <= i,
    ensures
        first_occurrence_from(buf, needle, i) matches Some(p)
            ==> forall|j: int| i <= j < p ==> !occurs_at(buf, needle, j),
        first_occurrence_from(buf, needle, i) is None ==> forall|j: int| i <= j ==> !occurs_at(buf, needle, j),
    decreases buf.len() + 1 - i,
{
    if !(i + needle.len() > buf.len()) && !occurs_at(buf, needle, i) {
        lemma_first_occurrence_least(buf, needle, i + 1);
    }
}

/// A text occurs in `b` after its first `k` bytes just where it occurs,
/// `k` further on, in `b`.
proof fn lemma_occurs_after_skip(b: Seq<u8>, needle: Seq<u8>, k: int, j: int)
    requires
        0 <= k <= b.len(),
        0 <= j,
    ensures
        occurs_at(b.skip(k), needle, j) == occurs_at(b, needle, j + k),
{
    if j + needle.len() <= b.len() - k {
        assert(b.skip(k).subrange(j, j + needle.len()) =~= b.subrange(j + k, j + k + needle.len()));
    }
}

/// The XML header found is the text from the first `<header ` after the
/// 13-byte binary prefix up to and including the first `</header>` after
/// that; no header is found when either is missing.
pub proof fn lemma_header_bounds_are_first_tags(b: Seq<u8>)
    requires
        b.len() >= 13,
    ensures
        header_bounds(b) matches Some((start, end)) ==> {
            &&& 13 <= start
            &&& occurs_at(b, header_start_token(), start)
            &&& forall|j: int| 13 <= j < start ==> !occurs_at(b, header_start_token(), j)
            &&& start <= end - 9
            &&& occurs_at(b, header_end_token(), end - 9)
            &&& forall|j: int| start <= j < end - 9 ==> !occurs_at(b, header_end_token(), j)
        },
        header_bounds(b) is None ==> (forall|j: int| 13 <= j ==> !occurs_at(b, header_start_token(), j))
            || exists|start: int| 13 <= start && occurs_at(b, header_start_token(), start)
                && forall|j: int| start <= j ==> !occurs_at(b, header_end_token(), j),
{
    let a = b.skip(13);
    let st = header_start_token();
    let et = header_end_token();
    lemma_first_occurrence_found(a, st, 0);
    lemma_first_occurrence_least(a, st, 0);
    match first_occurrence(a, st) {
        None => {
            assert forall|j: int| 13 <= j implies !occurs_at(b, st, j) by {
                if j <= b.len() {
                    lemma_occurs_after_skip(b, st, 13, j - 13);
                }
            }
        },
        Some(p) => {
            let start = p + 13;
            lemma_occurs_after_skip(b, st, 13, p);
            assert forall|j: int| 13 <= j < start implies !occurs_at(b, st, j) by {
                lemma_occurs_after_skip(b, st, 13, j - 13);
            }
            let c = b.skip(start);
            lemma_first_occurrence_found(c, et, 0);
            lemma_first_occurrence_least(c, et, 0);
            match first_occurrence(c, et) {
                None => {
                    assert forall|j: int| start <= j implies !occurs_at(b, et, j) by {
                        if j <= b.len() {
                            lemma_occurs_after_skip(b, et, start, j - start);
                        }
                    }
                },
                Some(q) => {
                    lemma_occurs_after_skip(b, et, start, q);
                    assert forall|j: int| start <= j < q + start implies !occurs_at(b, et, j) by {
                        lemma_occurs_after_skip(b, et, start, j - start);
                    }
                },
            }
        },
    }
}

/// A first occurrence lies inside the searched text, at or after `i`.
pub proof fn lemma_first_occurrence_found(buf: Seq<u8>, needle: Seq<u8>, i: int)
    ensures
        first_occurrence_from(buf, needle, i) matches Some(p) ==> i <= p && occurs_at(buf, needle, p),
    decreases buf.len() + 1 - i,
{
    if !(i < 0 || i + needle.len() > buf.len()) && !occurs_at(buf, needle, i) {
        lemma_first_occurrence_found(buf, needle, i + 1);
    }
}

/// Little-endian 16-bit value of two bytes.
pub open spec fn le16(b0: u8, b1: u8) -> u16 {
    (b0 as int + 256 * b1 as int) as u16
}

/// Little-endian 32-bit value of four bytes.
pub open spec fn le32(b0: u8, b1: u8, b2: u8, b3: u8) -> u32 {
    (b0 as int + 256 * b1 as int + 65536 * b2 as int + 16777216 * b3 as int) as u32
}

/// The two values are little-endian: the low byte comes first.
pub proof fn lemma_little_endian(b0: u8, b1: u8, b2: u8, b3: u8)
    ensures
        le16(b0, b1) % 256 == b0,
        le16(b0, b1) / 256 == b1,
        le32(b0, b1, b2, b3) % 256 == b0,
        (le32(b0, b1, b2, b3) / 256) % 256 == b1,
        (le32(b0, b1, b2, b3) / 65536) % 256 == b2,
        le32(b0, b1, b2, b3) / 16777216 == b3,
{
}

/// A file with the magic but shorter than the 13-byte binary prefix; the
/// parser indexes into that prefix and does not accept such a file.
pub open spec fn truncated_prefix(b: Seq<u8>) -> bool {
    has_gbx_magic(b) && b.len() < 13
}

/// What parsing a GBX buffer gives, in terms of the plain outcome of the
/// replay header read from `b[start..end]`.
pub enum GbxOutcome {
    TooShort,
    NoMagic,
    NoHeader,
    Header { version: u16, class_id: u32, replay: ReplayOutcome },
}

pub open spec fn gbx_outcome(b: Seq<u8>) -> GbxOutcome {
    if b.len() < 3 {
        GbxOutcome::TooShort
    } else if !has_gbx_magic(b) {
        GbxOutcome::NoMagic
    } else {
        match header_bounds(b) {
            None => GbxOutcome::NoHeader,
            Some((start, end)) => GbxOutcome::Header {
                version: le16(b[3], b[4]),
                class_id: le32(b[9], b[10], b[11], b[12]),
                replay: replay_outcome(xml_reader_events(b.subrange(start, end))),
            },
        }
    }
}

/// The version and class id of the binary prefix.
#[derive(Debug, Clone, Copy)]
pub struct GbxBinaryHeader {
    pub version: u16,
    pub class_id: u32,
}

/// What a replay file shows: where it lies, the cleaned map name, the time
/// as text, and the headers it was read from.
#[derive(Debug, Clone)]
pub struct GbxHeader {
    pub path: String,
    name: String,
    time: String,
    binary_header: GbxBinaryHeader,
    replay_header: GbxReplayHeader,
}

/// The plain content of a [`GbxHeader`].
pub struct GbxHeaderModel {
    pub path: Seq<char>,
    pub name: Seq<char>,
    pub time: Seq<char>,
    pub version: u16,
    pub class_id: u32,
    pub replay: ReplayHeaderModel,
}

impl View for GbxHeader {
    type V = GbxHeaderModel;

    closed spec fn view(&self) -> GbxHeaderModel {
        GbxHeaderModel {
            path: self.path@,
            name: self.name@,
            time: self.time@,
            version: self.binary_header.version,
            class_id: self.binary_header.class_id,
            replay: self.replay_header@,
        }
    }
}

/// The summary that a replay header gives for a file at `path`.
pub open spec fn summary_of(path: Seq<char>, version: u16, class_id: u32, replay: ReplayHeaderModel) -> GbxHeaderModel {
    GbxHeaderModel {
        path,
        name: trimmed(strip_format_codes(replay.name)),
        time: race_time_text(replay.best),
        version,
        class_id,
        replay,
    }
}

impl GbxHeader {
    /// The unique id of the replay's map.
    pub fn uid(&self) -> (r: &str)
        ensures
            r@ == self@.replay.uid,
    {
        self.replay_header.uid()
    }

    /// The map name without formatting codes.
    pub fn name(&self) -> (r: &str)
        ensures
            r@ == self@.name,
    {
        self.name.as_str()
    }

    /// The map's author.
    pub fn author(&self) -> (r: &str)
        ensures
            r@ == self@.replay.author,
    {
        self.replay_header.author()
    }

    /// The replay's time as text.
    pub fn time(&self) -> (r: &str)
        ensures
            r@ == self@.time,
    {
        self.time.as_str()
    }
}

/// The bytes of `<header `.
fn header_start_bytes() -> (v: Vec<u8>)
    ensures
        v@ == header_start_token(),
{
    let mut v = Vec::new();
    v.push(60u8);
    v.push(104u8);
    v.push(101u8);
    v.push(97u8);
    v.push(100u8);
    v.push(101u8);
    v.push(114u8);
    v.push(32u8);
    assert(v@ =~= header_start_token());
    v
}

/// The bytes of `</header>`.
fn header_end_bytes() -> (v: Vec<u8>)
    ensures
        v@ == header_end_token(),
{
    let mut v = Vec::new();
    v.push(60u8);
    v.push(47u8);
    v.push(104u8);
    v.push(101u8);
    v.push(97u8);
    v.push(100u8);
    v.push(101u8);
    v.push(114u8);
    v.push(62u8);
    assert(v@ =~= header_end_token());
    v
}

/// Whether `needle` occurs in `buf` at `start`.
fn occurs_here(buf: &[u8], start: usize, needle: &[u8]) -> (b: bool)
    requires
        start + needle@.len() <= buf@.len(),
    ensures
        b == occurs_at(buf@, needle@, start as int),
{
    let mut k: usize = 0;
    while k < needle.len()
        invariant
            start + needle@.len() <= buf@.len(),
            buf@.len() == buf.len(),
            k <= needle.len(),
            forall|j: int| 0 <= j < k ==> buf@[start + j] == needle@[j],
        decreases needle.len() - k,
    {
        if buf[start + k] != needle[k] {
            assert(buf@.subrange(start as int, start + needle@.len())[k as int] != needle@[k as int]);
            return false;
        }
        k = k + 1;
    }
    assert(buf@.subrange(start as int, start + needle@.len()) =~= needle@);
    true
}

/// The position of the first occurrence of `needle` in `buf`.
pub fn find_window(buf: &[u8], needle: &[u8]) -> (r: Option<usize>)
    requires
        needle@.len() > 0,
    ensures
        r matches Some(i) ==> first_occurrence(buf@, needle@) == Some(i as int),
        r is None ==> first_occurrence(buf@, needle@) is None,
        r matches Some(i) ==> occurs_at(buf@, needle@, i as int)
            && forall|j: int| 0 <= j < i ==> !occurs_at(buf@, needle@, j),
        r is None ==> forall|j: int| !occurs_at(buf@, needle@, j),
{
    let n = needle.len();
    if n > buf.len() {
        return None;
    }
    let mut i: usize = 0;
    let last = buf.len() - n;
    while i <= last
        invariant
            n == needle@.len(),
            n > 0,
            n <= buf@.len(),
            buf@.len() == buf.len(),
            last == buf@.len() - n,
            i <= last + 1,
            first_occurrence(buf@, needle@) == first_occurrence_from(buf@, needle@, i as int),
            forall|j: int| 0 <= j < i ==> !occurs_at(buf@, needle@, j),
        decreases last + 1 - i,
    {
        if occurs_here(buf, i, needle) {
            return Some(i);
        }
        i = i + 1;
    }
    None
}

/// Reads the binary prefix and the replay header of a GBX buffer.
pub fn parse_from_buffer(buffer: &[u8]) -> (res: Result<(GbxBinaryHeader, GbxReplayHeader), ParseError>)
    requires
        !truncated_prefix(buffer@),
    ensures
        match gbx_outcome(buffer@) {
            GbxOutcome::TooShort => res matches Err(ParseError::FileTooShort),
            GbxOutcome::NoMagic => res matches Err(ParseError::MissingGBXMagic),
            GbxOutcome::NoHeader => res matches Err(ParseError::HeaderNotFound),
            GbxOutcome::Header { version, class_id, replay } => match res {
                Ok((b, r)) => b.version == version && b.class_id == class_id
                    && matches_replay_outcome(Ok(r), replay),
                Err(e) => matches_replay_outcome(Err(e), replay),
            },
        },
{
    if buffer.len() < 3 {
        return Err(ParseError::FileTooShort);
    }
    if !(buffer[0] == 71u8 && buffer[1] == 66u8 && buffer[2] == 88u8) {
        return Err(ParseError::MissingGBXMagic);
    }
    let binary_header = GbxBinaryHeader {
        version: buffer[3] as u16 + 256 * buffer[4] as u16,
        class_id: buffer[9] as u32 + 256 * buffer[10] as u32 + 65536 * buffer[11] as u32
            + 16777216 * buffer[12] as u32,
    };
    let start_token = header_start_bytes();
    let end_token = header_end_bytes();
    let after_prefix = &buffer[13..buffer.len()];
    assert(after_prefix@ =~= buffer@.skip(13));
    let header_start = match find_window(after_prefix, start_token.as_slice()) {
        None => return Err(ParseError::HeaderNotFound),
        Some(x) => x + 13,
    };
    let rest = &buffer[header_start..buffer.len()];
    assert(rest@ =~= buffer@.skip(header_start as int));
    let header_end = match find_window(rest, end_token.as_slice()) {
        None => return Err(ParseError::HeaderNotFound),
        Some(x) => x + header_start + end_token.len(),
    };
    let xml = &buffer[header_start..header_end];
    let replay_header = GbxReplayHeader::parse_replay_xml(xml)?;
    Ok((binary_header, replay_header))
}

/// Reads a GBX replay held in `buffer`, as read from the file at `path`:
/// its binary prefix, its XML header, and the cleaned name and time text.
pub fn parse_from_bytes(path: String, buffer: &[u8]) -> (res: Result<GbxHeader, ParseError>)
    requires
        !truncated_prefix(buffer@),
    ensures
        match gbx_outcome(buffer@) {
            GbxOutcome::TooShort => res matches Err(ParseError::FileTooShort),
            GbxOutcome::NoMagic => res matches Err(ParseError::MissingGBXMagic),
            GbxOutcome::NoHeader => res matches Err(ParseError::HeaderNotFound),
            GbxOutcome::Header { version, class_id, replay } => match replay {
                ReplayOutcome::Parsed(m) => res matches Ok(h) && h@ == summary_of(path@, version, class_id, m),
                ReplayOutcome::NotReplay => res matches Err(ParseError::HeaderNotFound),
                ReplayOutcome::XmlFailure(_) => res matches Err(ParseError::XMLParse(_)),
                ReplayOutcome::BadValue => res matches Err(ParseError::HeaderValue(_)),
            },
        },
{
    let (binary_header, replay_header) = parse_from_buffer(buffer)?;
    let name = replay_header.clean_name();
    let time = replay_header.time();
    Ok(GbxHeader { path, name, time, binary_header, replay_header })
}

} // verus!
