//! The XML header that a GBX replay carries: the events the XML reader
//! reports, how each start tag fills the header, and the derived texts
//! (the map name without formatting codes, the race time).
use vstd::prelude::*;

use super::ParseError;
use crate::text::{
    all_digits, chars_of, decimal, decimal_u32, digits_value, lemma_decimal_reads_back, lemma_trimmed_chars_from,
    lemma_trimmed_idempotent, lemma_zero_padded_reads_back, parsed_u32, pow10, push_char, push_decimal,
    push_zero_padded, same_text, trim_chars, trimmed, zero_padded,
};

verus! {

/// `xml::reader::Error`, carried as an opaque value.
#[verifier::external_type_specification]
#[verifier::external_body]
pub struct ExXmlReaderError(xml::reader::Error);

/// `std::num::ParseIntError`, carried as an opaque value.
#[verifier::external_type_specification]
#[verifier::external_body]
pub struct ExParseIntError(std::num::ParseIntError);

/// One attribute of an XML start tag: its local name and its value.
#[derive(Debug, Clone)]
pub struct XmlAttribute {
    pub name: String,
    pub value: String,
}

/// One event of the XML reader, as far as the replay header reads it.
#[derive(Debug)]
pub enum XmlItem {
    /// A start tag with its local name and its attributes in document order.
    Start { name: String, attributes: Vec<XmlAttribute> },
    /// Any other event (text, end tag, declaration, ...).
    Other,
    /// The reader failed; nothing follows.
    Failure(xml::reader::Error),
}

/// The plain content of an [`XmlItem`].
pub enum XmlItemView {
    Start { name: Seq<char>, attributes: Seq<(Seq<char>, Seq<char>)> },
    Other,
    Failure,
}

pub open spec fn attributes_view(attributes: Seq<XmlAttribute>) -> Seq<(Seq<char>, Seq<char>)> {
    attributes.map_values(|a: XmlAttribute| (a.name@, a.value@))
}

impl View for XmlItem {
    type V = XmlItemView;

    open spec fn view(&self) -> XmlItemView {
        match self {
            XmlItem::Start { name, attributes } => XmlItemView::Start {
                name: name@,
                attributes: attributes_view(attributes@),
            },
            XmlItem::Other => XmlItemView::Other,
            XmlItem::Failure(_) => XmlItemView::Failure,
        }
    }
}

pub open spec fn items_view(items: Seq<XmlItem>) -> Seq<XmlItemView> {
    items.map_values(|e: XmlItem| e@)
}

/// The events that the `xml` crate's `EventReader` reports for `document`,
/// in order, up to and including the first error or the end of the document.
pub uninterp spec fn xml_reader_events(document: Seq<u8>) -> Seq<XmlItemView>;

/// Reads `document` with `xml::EventReader` (default configuration) and
/// keeps, for each event, the local name and attributes of start tags and
/// the error of a failed read. The contract claims only that the result is
/// what the reader reports, which the library names and does not describe.
#[verifier::external_body]
fn read_xml_events(document: &[u8]) -> (events: Vec<XmlItem>)
    ensures
        items_view(events@) == xml_reader_events(document@),
{
    let mut items = Vec::new();
    for event in xml::EventReader::new(document) {
        items.push(match event {
            Ok(xml::reader::XmlEvent::StartElement { name, attributes, .. }) => XmlItem::Start {
                name: name.local_name,
                attributes: attributes.into_iter().map(
                    |a| XmlAttribute { name: a.name.local_name, value: a.value },
                ).collect(),
            },
            Ok(_) => XmlItem::Other,
            Err(e) => XmlItem::Failure(e),
        });
    }
    items
}

/// The error `u32::from_str` gives for `s`, which it rejects: std documents
/// that the text must be an optional `+` followed by digits whose value
/// fits, so on such a text the call fails. The error value is not
/// described.
#[verifier::external_body]
fn u32_parse_error(s: &str) -> std::num::ParseIntError
    requires
        parsed_u32(s@) is None,
{
    <u32 as std::str::FromStr>::from_str(s).unwrap_err()
}

/// `u32::from_str`: the value when the text is an optional `+` followed by
/// decimal digits that fit, std's error otherwise.
fn parse_u32(s: &str) -> (res: Result<u32, std::num::ParseIntError>)
    ensures
        res is Ok <==> parsed_u32(s@) is Some,
        res matches Ok(v) ==> parsed_u32(s@) == Some(v),
{
    match decimal_u32(s) {
        Some(v) => Ok(v),
        None => Err(u32_parse_error(s)),
    }
}

/// What the replay header holds, as plain values.
pub struct ReplayHeaderModel {
    pub version: Seq<char>,
    pub exever: Seq<char>,
    pub title: Seq<char>,
    pub uid: Seq<char>,
    pub name: Seq<char>,
    pub author: Seq<char>,
    pub envir: Seq<char>,
    pub mood: Seq<char>,
    pub maptype: Seq<char>,
    pub mapstyle: Seq<char>,
    pub best: u32,
    pub respawns: u32,
    pub stuntscore: u32,
    pub validable: bool,
}

/// The header before any attribute was read: empty texts, zero scores.
pub open spec fn empty_header_model() -> ReplayHeaderModel {
    ReplayHeaderModel {
        version: Seq::empty(),
        exever: Seq::empty(),
        title: Seq::empty(),
        uid: Seq::empty(),
        name: Seq::empty(),
        author: Seq::empty(),
        envir: Seq::empty(),
        mood: Seq::empty(),
        maptype: Seq::empty(),
        mapstyle: Seq::empty(),
        best: 0,
        respawns: 0,
        stuntscore: 0,
        validable: false,
    }
}

/// The header read so far and whether a `header type="replay"` was seen.
pub struct ScanState {
    pub header: ReplayHeaderModel,
    pub is_replay: bool,
}

/// The effect of one attribute `name="value"` of a start tag `element`;
/// `None` when a number of the `times` tag does not parse.
pub open spec fn apply_attribute(st: ScanState, element: Seq<char>, name: Seq<char>, value: Seq<char>) -> Option<ScanState> {
    let h = st.header;
    if element == "header"@ {
        if name == "type"@ {
            if value == "replay"@ { Some(ScanState { header: h, is_replay: true }) } else { Some(st) }
        } else if name == "version"@ {
            Some(ScanState { header: ReplayHeaderModel { version: value, ..h }, ..st })
        } else if name == "exever"@ {
            Some(ScanState { header: ReplayHeaderModel { exever: value, ..h }, ..st })
        } else if name == "title"@ {
            Some(ScanState { header: ReplayHeaderModel { title: value, ..h }, ..st })
        } else {
            Some(st)
        }
    } else if element == "map"@ {
        if name == "uid"@ {
            Some(ScanState { header: ReplayHeaderModel { uid: value, ..h }, ..st })
        } else if name == "name"@ {
            Some(ScanState { header: ReplayHeaderModel { name: value, ..h }, ..st })
        } else if name == "author"@ {
            Some(ScanState { header: ReplayHeaderModel { author: value, ..h }, ..st })
        } else {
            Some(st)
        }
    } else if element == "desc"@ {
        if name == "envir"@ {
            Some(ScanState { header: ReplayHeaderModel { envir: value, ..h }, ..st })
        } else if name == "mood"@ {
            Some(ScanState { header: ReplayHeaderModel { mood: value, ..h }, ..st })
        } else if name == "maptype"@ {
            Some(ScanState { header: ReplayHeaderModel { maptype: value, ..h }, ..st })
        } else if name == "mapstyle"@ {
            Some(ScanState { header: ReplayHeaderModel { mapstyle: value, ..h }, ..st })
        } else {
            Some(st)
        }
    } else if element == "times"@ {
        if name == "best"@ {
            match parsed_u32(value) {
                Some(v) => Some(ScanState { header: ReplayHeaderModel { best: v, ..h }, ..st }),
                None => None,
            }
        } else if name == "respawns"@ {
            match parsed_u32(value) {
                Some(v) => Some(ScanState { header: ReplayHeaderModel { respawns: v, ..h }, ..st }),
                None => None,
            }
        } else if name == "stuntscore"@ {
            match parsed_u32(value) {
                Some(v) => Some(ScanState { header: ReplayHeaderModel { stuntscore: v, ..h }, ..st }),
                None => None,
            }
        } else if name == "validable"@ {
            match parsed_u32(value) {
                Some(v) => Some(ScanState { header: ReplayHeaderModel { validable: v != 0, ..h }, ..st }),
                None => None,
            }
        } else {
            Some(st)
        }
    } else {
        Some(st)
    }
}

/// The attributes of one start tag, applied left to right.
pub open spec fn apply_attributes(st: ScanState, element: Seq<char>, attributes: Seq<(Seq<char>, Seq<char>)>) -> Option<ScanState>
    decreases attributes.len(),
{
    if attributes.len() == 0 {
        Some(st)
    } else {
        match apply_attributes(st, element, attributes.drop_last()) {
            Some(s) => apply_attribute(s, element, attributes.last().0, attributes.last().1),
            None => None,
        }
    }
}

/// Where a scan of the reader's events stands.
pub enum ScanOutcome {
    Running(ScanState),
    /// The reader failed at this event.
    XmlFailure(int),
    /// A number of the `times` tag did not parse.
    BadValue,
}

/// The events applied in order; the first failure ends the scan.
pub open spec fn scan_events(events: Seq<XmlItemView>) -> ScanOutcome
    decreases events.len(),
{
    if events.len() == 0 {
        ScanOutcome::Running(ScanState { header: empty_header_model(), is_replay: false })
    } else {
        match scan_events(events.drop_last()) {
            ScanOutcome::Running(st) => match events.last() {
                XmlItemView::Start { name, attributes } => match apply_attributes(st, name, attributes) {
                    Some(s) => ScanOutcome::Running(s),
                    None => ScanOutcome::BadValue,
                },
                XmlItemView::Other => ScanOutcome::Running(st),
                XmlItemView::Failure => ScanOutcome::XmlFailure(events.len() - 1),
            },
            done => done,
        }
    }
}

/// What reading a replay header from the reader's events gives.
pub enum ReplayOutcome {
    Parsed(ReplayHeaderModel),
    NotReplay,
    XmlFailure(int),
    BadValue,
}

pub open spec fn replay_outcome(events: Seq<XmlItemView>) -> ReplayOutcome {
    match scan_events(events) {
        ScanOutcome::Running(st) => if st.is_replay {
            ReplayOutcome::Parsed(st.header)
        } else {
            ReplayOutcome::NotReplay
        },
        ScanOutcome::XmlFailure(k) => ReplayOutcome::XmlFailure(k),
        ScanOutcome::BadValue => ReplayOutcome::BadValue,
    }
}

/// `res` is what the outcome `o` calls for: the header, or the error
/// variant that goes with the failure.
pub open spec fn matches_replay_outcome(res: Result<GbxReplayHeader, ParseError>, o: ReplayOutcome) -> bool {
    match o {
        ReplayOutcome::Parsed(m) => res matches Ok(h) && h@ == m,
        ReplayOutcome::NotReplay => res matches Err(ParseError::HeaderNotFound),
        ReplayOutcome::XmlFailure(_) => res matches Err(ParseError::XMLParse(_)),
        ReplayOutcome::BadValue => res matches Err(ParseError::HeaderValue(_)),
    }
}

/// The tags whose attributes the replay header reads.
pub open spec fn known_element(name: Seq<char>) -> bool {
    name == "header"@ || name == "map"@ || name == "desc"@ || name == "times"@
}

/// The attributes that the replay header reads from each known tag.
pub open spec fn read_attribute(element: Seq<char>, name: Seq<char>) -> bool {
    if element == "header"@ {
        name == "type"@ || name == "version"@ || name == "exever"@ || name == "title"@
    } else if element == "map"@ {
        name == "uid"@ || name == "name"@ || name == "author"@
    } else if element == "desc"@ {
        name == "envir"@ || name == "mood"@ || name == "maptype"@ || name == "mapstyle"@
    } else if element == "times"@ {
        name == "best"@ || name == "respawns"@ || name == "stuntscore"@ || name == "validable"@
    } else {
        false
    }
}

/// An event the header does not read: anything but a start tag, or the
/// start tag of an unknown element.
pub open spec fn ignored_event(x: XmlItemView) -> bool {
    match x {
        XmlItemView::Start { name, attributes } => !known_element(name),
        XmlItemView::Other => true,
        XmlItemView::Failure => false,
    }
}

/// An outcome after an event was inserted at position `i`: a reader
/// failure at or after `i` moves one position on.
pub open spec fn shifted(o: ScanOutcome, i: int) -> ScanOutcome {
    match o {
        ScanOutcome::XmlFailure(k) => if k >= i { ScanOutcome::XmlFailure(k + 1) } else { o },
        _ => o,
    }
}

/// The same shift for the outcome of reading a replay header.
pub open spec fn shifted_outcome(o: ReplayOutcome, i: int) -> ReplayOutcome {
    match o {
        ReplayOutcome::XmlFailure(k) => if k >= i { ReplayOutcome::XmlFailure(k + 1) } else { o },
        _ => o,
    }
}

/// An attribute the header does not read leaves the state as it is.
pub proof fn lemma_unread_attribute(st: ScanState, element: Seq<char>, name: Seq<char>, value: Seq<char>)
    requires
        !read_attribute(element, name),
    ensures
        apply_attribute(st, element, name, value) == Some(st),
{
}

/// Inserting an attribute the header does not read changes nothing.
pub proof fn lemma_unread_attribute_inserted(st: ScanState, element: Seq<char>, attrs: Seq<(Seq<char>, Seq<char>)>, j: int, name: Seq<char>, value: Seq<char>)
    requires
        0 <= j <= attrs.len(),
        !read_attribute(element, name),
    ensures
        apply_attributes(st, element, attrs.insert(j, (name, value))) == apply_attributes(st, element, attrs),
    decreases attrs.len(),
{
    let a2 = attrs.insert(j, (name, value));
    if j == attrs.len() {
        assert(a2.drop_last() =~= attrs);
        if let Some(s) = apply_attributes(st, element, attrs) {
            lemma_unread_attribute(s, element, name, value);
        }
    } else {
        assert(a2.drop_last() =~= attrs.drop_last().insert(j, (name, value)));
        assert(a2.last() == attrs.last());
        lemma_unread_attribute_inserted(st, element, attrs.drop_last(), j, name, value);
    }
}

/// The attributes of an unknown element change nothing.
pub proof fn lemma_unknown_element_attributes(st: ScanState, element: Seq<char>, attrs: Seq<(Seq<char>, Seq<char>)>)
    requires
        !known_element(element),
    ensures
        apply_attributes(st, element, attrs) == Some(st),
    decreases attrs.len(),
{
    if attrs.len() > 0 {
        lemma_unknown_element_attributes(st, element, attrs.drop_last());
        lemma_unread_attribute(st, element, attrs.last().0, attrs.last().1);
    }
}

/// A reader failure lies within the events scanned.
pub proof fn lemma_failure_in_range(events: Seq<XmlItemView>)
    ensures
        scan_events(events) matches ScanOutcome::XmlFailure(k) ==> 0 <= k < events.len(),
    decreases events.len(),
{
    if events.len() > 0 {
        lemma_failure_in_range(events.drop_last());
    }
}

/// Inserting an ignored event into the reader's events changes nothing of
/// the scan but the position of a later reader failure.
pub proof fn lemma_ignored_event_inserted_scan(events: Seq<XmlItemView>, i: int, x: XmlItemView)
    requires
        0 <= i <= events.len(),
        ignored_event(x),
    ensures
        scan_events(events.insert(i, x)) == shifted(scan_events(events), i),
    decreases events.len(),
{
    let e2 = events.insert(i, x);
    lemma_failure_in_range(events);
    if i == events.len() {
        assert(e2.drop_last() =~= events);
        assert(e2.last() == x);
        if let ScanOutcome::Running(st) = scan_events(events) {
            if let XmlItemView::Start { name, attributes } = x {
                lemma_unknown_element_attributes(st, name, attributes);
            }
        }
    } else {
        assert(e2.drop_last() =~= events.drop_last().insert(i, x));
        assert(e2.last() == events.last());
        lemma_ignored_event_inserted_scan(events.drop_last(), i, x);
        lemma_failure_in_range(events.drop_last());
        match scan_events(events.drop_last()) {
            ScanOutcome::Running(st) => {
                assert(scan_events(e2.drop_last()) == ScanOutcome::Running(st));
            },
            ScanOutcome::XmlFailure(k) => {
                assert(scan_events(events) == ScanOutcome::XmlFailure(k));
            },
            ScanOutcome::BadValue => {},
        }
    }
}

/// Unknown elements are ignored: inserting into the reader's events a
/// start tag of an element the header does not read (with any
/// attributes), or any other event but a failure (such as an end tag),
/// leaves the header read, or the kind of error, as it was.
pub proof fn lemma_unknown_element_ignored(events: Seq<XmlItemView>, i: int, x: XmlItemView)
    requires
        0 <= i <= events.len(),
        ignored_event(x),
    ensures
        replay_outcome(events.insert(i, x)) == shifted_outcome(replay_outcome(events), i),
{
    lemma_ignored_event_inserted_scan(events, i, x);
}

/// Inserting an unread attribute into the start tag at position `m`
/// changes nothing of the scan.
pub proof fn lemma_unread_attribute_in_events_scan(events: Seq<XmlItemView>, m: int, j: int, name: Seq<char>, value: Seq<char>)
    requires
        0 <= m < events.len(),
        events[m] is Start,
        0 <= j <= events[m]->attributes.len(),
        !read_attribute(events[m]->name, name),
    ensures
        scan_events(events.update(m, XmlItemView::Start {
            name: events[m]->name,
            attributes: events[m]->attributes.insert(j, (name, value)),
        })) == scan_events(events),
    decreases events.len(),
{
    let x2 = XmlItemView::Start {
        name: events[m]->name,
        attributes: events[m]->attributes.insert(j, (name, value)),
    };
    let e2 = events.update(m, x2);
    if m == events.len() - 1 {
        assert(e2.drop_last() =~= events.drop_last());
        if let ScanOutcome::Running(st) = scan_events(events.drop_last()) {
            lemma_unread_attribute_inserted(st, events[m]->name, events[m]->attributes, j, name, value);
        }
    } else {
        assert(e2.drop_last() =~= events.drop_last().update(m, x2));
        assert(e2.last() == events.last());
        assert(events.drop_last()[m] == events[m]);
        lemma_unread_attribute_in_events_scan(events.drop_last(), m, j, name, value);
    }
}

/// Unknown attributes are ignored: adding to a start tag an attribute
/// that the header does not read from that tag leaves the header read, or
/// the error, exactly as it was.
pub proof fn lemma_unknown_attribute_ignored(events: Seq<XmlItemView>, m: int, j: int, name: Seq<char>, value: Seq<char>)
    requires
        0 <= m < events.len(),
        events[m] is Start,
        0 <= j <= events[m]->attributes.len(),
        !read_attribute(events[m]->name, name),
    ensures
        replay_outcome(events.update(m, XmlItemView::Start {
            name: events[m]->name,
            attributes: events[m]->attributes.insert(j, (name, value)),
        })) == replay_outcome(events),
{
    lemma_unread_attribute_in_events_scan(events, m, j, name, value);
}

/// Whether `c` is a hexadecimal digit.
pub open spec fn is_hex_digit(c: char) -> bool {
    ('0' <= c <= '9') || ('a' <= c <= 'f') || ('A' <= c <= 'F')
}

/// `s` without its first `n` characters (empty when it has fewer).
pub open spec fn skip_up_to(s: Seq<char>, n: int) -> Seq<char> {
    if n >= s.len() { Seq::empty() } else { s.skip(n) }
}

/// A map name without its formatting codes: a `$` drops itself and the
/// character after it, and when that character is a hexadecimal digit
/// (a colour code) the two characters after that as well.
pub open spec fn strip_format_codes(s: Seq<char>) -> Seq<char>
    decreases s.len(),
{
    if s.len() == 0 {
        Seq::empty()
    } else if s[0] == '$' {
        if s.len() >= 2 && is_hex_digit(s[1]) {
            strip_format_codes(skip_up_to(s, 4))
        } else {
            strip_format_codes(skip_up_to(s, 2))
        }
    } else {
        seq![s[0]] + strip_format_codes(s.drop_first())
    }
}

/// Stripping leaves no `$` behind.
pub proof fn lemma_stripped_has_no_mark(s: Seq<char>)
    ensures
        forall|i: int| 0 <= i < strip_format_codes(s).len() ==> strip_format_codes(s)[i] != '$',
    decreases s.len(),
{
    if s.len() == 0 {
    } else if s[0] == '$' {
        if s.len() >= 2 && is_hex_digit(s[1]) {
            lemma_stripped_has_no_mark(skip_up_to(s, 4));
            assert(strip_format_codes(s) == strip_format_codes(skip_up_to(s, 4)));
        } else {
            lemma_stripped_has_no_mark(skip_up_to(s, 2));
            assert(strip_format_codes(s) == strip_format_codes(skip_up_to(s, 2)));
        }
    } else {
        lemma_stripped_has_no_mark(s.drop_first());
        let r = strip_format_codes(s.drop_first());
        assert(strip_format_codes(s) == seq![s[0]] + r);
        assert forall|i: int| 0 <= i < strip_format_codes(s).len() implies strip_format_codes(s)[i] != '$' by {
            if i == 0 {
                assert(strip_format_codes(s)[0] == s[0]);
            } else {
                assert(strip_format_codes(s)[i] == r[i - 1]);
            }
        }
    }
}

/// A text without `$` has nothing to strip.
pub proof fn lemma_strip_without_marks(s: Seq<char>)
    requires
        forall|i: int| 0 <= i < s.len() ==> s[i] != '$',
    ensures
        strip_format_codes(s) == s,
    decreases s.len(),
{
    if s.len() > 0 {
        assert(s[0] != '$');
        lemma_strip_without_marks(s.drop_first());
        assert(seq![s[0]] + s.drop_first() =~= s);
    }
}

/// A colour code, `$` and a hexadecimal digit (`0`-`9`, `a`-`f`, `A`-`F`)
/// followed by any two characters, is removed whole: the map name cleans
/// as the text after it does.
pub proof fn lemma_colour_code_removed(h: char, x: char, y: char, rest: Seq<char>)
    requires
        ('0' <= h <= '9') || ('a' <= h <= 'f') || ('A' <= h <= 'F'),
    ensures
        strip_format_codes(seq!['$', h, x, y] + rest) == strip_format_codes(rest),
        trimmed(strip_format_codes(seq!['$', h, x, y] + rest)) == trimmed(strip_format_codes(rest)),
{
    let s = seq!['$', h, x, y] + rest;
    assert(s[0] == '$' && s[1] == h);
    assert(skip_up_to(s, 4) =~= rest);
}

/// Any other formatting code, `$` and a character that is not a
/// hexadecimal digit, is removed with that character alone.
pub proof fn lemma_style_code_removed(c: char, rest: Seq<char>)
    requires
        !(('0' <= c <= '9') || ('a' <= c <= 'f') || ('A' <= c <= 'F')),
    ensures
        strip_format_codes(seq!['$', c] + rest) == strip_format_codes(rest),
{
    let s = seq!['$', c] + rest;
    assert(s[0] == '$' && s[1] == c);
    assert(skip_up_to(s, 2) =~= rest);
}

/// A character other than `$` is kept, in its place.
pub proof fn lemma_plain_char_kept(c: char, rest: Seq<char>)
    requires
        c != '$',
    ensures
        strip_format_codes(seq![c] + rest) == seq![c] + strip_format_codes(rest),
{
    let s = seq![c] + rest;
    assert(s[0] == c);
    assert(s.drop_first() =~= rest);
}

/// A cleaned map name holds no formatting mark `$`.
pub proof fn lemma_clean_name_has_no_mark(name: Seq<char>)
    ensures
        forall|i: int| 0 <= i < trimmed(strip_format_codes(name)).len() ==> trimmed(strip_format_codes(name))[i] != '$',
{
    lemma_stripped_has_no_mark(name);
    lemma_trimmed_chars_from(strip_format_codes(name));
}

/// Cleaning a cleaned map name changes nothing.
pub proof fn lemma_clean_name_idempotent(name: Seq<char>)
    ensures
        trimmed(strip_format_codes(trimmed(strip_format_codes(name)))) == trimmed(strip_format_codes(name)),
{
    let c = trimmed(strip_format_codes(name));
    lemma_clean_name_has_no_mark(name);
    lemma_strip_without_marks(c);
    lemma_trimmed_idempotent(strip_format_codes(name));
}

/// A best time in milliseconds as the game shows it: `m'ss.mmm` from one
/// minute on, `s.mmm` below.
pub open spec fn race_time_text(best: u32) -> Seq<char> {
    let millis = (best % 1000) as nat;
    let seconds = (best / 1000) as nat;
    let s = seconds % 60;
    let m = seconds / 60;
    if m > 0 {
        decimal(m) + seq!['\''] + zero_padded(s, 2) + seq!['.'] + zero_padded(millis, 3)
    } else {
        decimal(s) + seq!['.'] + zero_padded(millis, 3)
    }
}

/// The race time text reads back as the time it shows: it ends with a
/// dot and exactly three digits giving the milliseconds (zero-padded,
/// whatever their value); before the dot stand the seconds, in two digits
/// after an apostrophe and the minutes from one minute on, or alone and
/// without a leading zero below a minute.
pub proof fn lemma_race_time_reads_back(best: u32)
    ensures
        ({
            let t = race_time_text(best);
            let k = t.len() as int;
            &&& k >= 5
            &&& t[k - 4] == '.'
            &&& all_digits(t.subrange(k - 3, k))
            &&& digits_value(t.subrange(k - 3, k)) == best % 1000
            &&& best < 60000 ==> all_digits(t.take(k - 4)) && digits_value(t.take(k - 4)) == best / 1000
                && (k == 5 || t[0] != '0')
            &&& best >= 60000 ==> k >= 8 && t[k - 7] == '\'' && all_digits(t.subrange(k - 6, k - 4))
                && digits_value(t.subrange(k - 6, k - 4)) == (best / 1000) % 60 && all_digits(t.take(k - 7))
                && digits_value(t.take(k - 7)) == best / 60000 && t[0] != '0'
        }),
{
    let t = race_time_text(best);
    let millis = (best % 1000) as nat;
    let seconds = (best / 1000) as nat;
    let s = seconds % 60;
    let m = seconds / 60;
    reveal_with_fuel(pow10, 4);
    lemma_zero_padded_reads_back(millis, 3);
    let ms = zero_padded(millis, 3);
    assert(m > 0 <==> best >= 60000);
    assert(m == best / 60000) by (nonlinear_arith)
        requires
            seconds == best / 1000,
            m == seconds / 60,
            best >= 0,
    {
    }
    if m > 0 {
        let dm = decimal(m);
        let ss = zero_padded(s, 2);
        lemma_decimal_reads_back(m);
        lemma_zero_padded_reads_back(s, 2);
        assert(t == dm + seq!['\''] + ss + seq!['.'] + ms);
        let k = t.len() as int;
        assert(k == dm.len() + 7);
        assert(t.subrange(k - 3, k) =~= ms);
        assert(t.subrange(k - 6, k - 4) =~= ss);
        assert(t.take(k - 7) =~= dm);
        assert(t[k - 4] == '.');
        assert(t[k - 7] == '\'');
        assert(t[0] == dm[0]);
    } else {
        let ds = decimal(s);
        lemma_decimal_reads_back(s);
        assert(t == ds + seq!['.'] + ms);
        let k = t.len() as int;
        assert(k == ds.len() + 4);
        assert(t.subrange(k - 3, k) =~= ms);
        assert(t.take(k - 4) =~= ds);
        assert(t[k - 4] == '.');
        assert(t[0] == ds[0]);
        assert(s == best / 1000);
    }
}

#[derive(Clone, Debug)]
struct GbxMeta {
    version: String,
    exever: String,
    title: String,
}

#[derive(Clone, Debug)]
struct GbxMap {
    uid: String,
    name: String,
    author: String,
}

#[derive(Clone, Debug)]
struct GbxDesc {
    envir: String,
    mood: String,
    maptype: String,
    mapstyle: String,
}

#[derive(Copy, Clone, Debug)]
struct GbxScore {
    best: u32,
    respawns: u32,
    stuntscore: u32,
    validable: bool,
}

/// The XML header of a GBX replay.
#[derive(Clone, Debug)]
pub struct GbxReplayHeader {
    meta: GbxMeta,
    map: GbxMap,
    desc: GbxDesc,
    score: GbxScore,
}

impl View for GbxReplayHeader {
    type V = ReplayHeaderModel;

    closed spec fn view(&self) -> ReplayHeaderModel {
        ReplayHeaderModel {
            version: self.meta.version@,
            exever: self.meta.exever@,
            title: self.meta.title@,
            uid: self.map.uid@,
            name: self.map.name@,
            author: self.map.author@,
            envir: self.desc.envir@,
            mood: self.desc.mood@,
            maptype: self.desc.maptype@,
            mapstyle: self.desc.mapstyle@,
            best: self.score.best,
            respawns: self.score.respawns,
            stuntscore: self.score.stuntscore,
            validable: self.score.validable,
        }
    }
}

impl Default for GbxReplayHeader {
    /// The header before any attribute was read.
    fn default() -> (h: Self)
        ensures
            h@ == empty_header_model(),
    {
        GbxReplayHeader {
            meta: GbxMeta { version: String::new(), exever: String::new(), title: String::new() },
            map: GbxMap { uid: String::new(), name: String::new(), author: String::new() },
            desc: GbxDesc {
                envir: String::new(),
                mood: String::new(),
                maptype: String::new(),
                mapstyle: String::new(),
            },
            score: GbxScore { best: 0, respawns: 0, stuntscore: 0, validable: false },
        }
    }
}

impl GbxReplayHeader {

    /// The unique id of the map the replay was driven on.
    pub fn uid(&self) -> (r: &str)
        ensures
            r@ == self@.uid,
    {
        self.map.uid.as_str()
    }

    /// The map's author.
    pub fn author(&self) -> (r: &str)
        ensures
            r@ == self@.author,
    {
        self.map.author.as_str()
    }

    /// The map name without formatting codes and surrounding whitespace.
    pub fn clean_name(&self) -> (r: String)
        ensures
            r@ == trimmed(strip_format_codes(self@.name)),
    {
        let chars = chars_of(self.map.name.as_str());
        let n = chars.len();
        let mut out: Vec<char> = Vec::new();
        let mut i: usize = 0;
        assert(chars@.skip(0) =~= chars@);
        while i < n
            invariant
                n == chars.len(),
                i <= n,
                strip_format_codes(chars@) == out@ + strip_format_codes(chars@.skip(i as int)),
            decreases n - i,
        {
            let ghost rest = chars@.skip(i as int);
            let c = chars[i];
            if c == '$' {
                let next = if i + 1 < n && is_hex(chars[i + 1]) {
                    if n - i > 4 { i + 4 } else { n }
                } else {
                    if n - i > 2 { i + 2 } else { n }
                };
                proof {
                    assert(rest[0] == '$');
                    if rest.len() >= 2 {
                        assert(rest[1] == chars@[i + 1]);
                    }
                    assert(chars@.skip(next as int) =~= skip_up_to(rest, (next - i) as int)) by {
                        if next == n {
                            assert(chars@.skip(next as int) =~= Seq::<char>::empty());
                        }
                    }
                    if i + 1 < n && is_hex_digit(chars@[i + 1]) {
                        assert(skip_up_to(rest, 4) =~= skip_up_to(rest, (next - i) as int));
                    } else {
                        assert(skip_up_to(rest, 2) =~= skip_up_to(rest, (next - i) as int));
                    }
                }
                i = next;
            } else {
                proof {
                    assert(rest[0] == c);
                    assert(rest.drop_first() =~= chars@.skip(i + 1));
                    assert(out@.push(c) + strip_format_codes(rest.drop_first()) =~= out@ + (seq![c] + strip_format_codes(rest.drop_first())));
                }
                out.push(c);
                i = i + 1;
            }
        }
        assert(chars@.skip(n as int) =~= Seq::<char>::empty());
        assert(out@ + Seq::<char>::empty() =~= out@);
        trim_chars(&out)
    }

    /// The best time of the replay as text (`m'ss.mmm` or `s.mmm`).
    pub fn time(&self) -> (t: String)
        ensures
            t@ == race_time_text(self@.best),
            t@.len() >= 5,
            t@[t@.len() - 4] == '.',
            all_digits(t@.subrange(t@.len() - 3, t@.len() as int)),
            digits_value(t@.subrange(t@.len() - 3, t@.len() as int)) == self@.best % 1000,
            self@.best < 60000 ==> all_digits(t@.take(t@.len() - 4))
                && digits_value(t@.take(t@.len() - 4)) == self@.best / 1000,
            self@.best >= 60000 ==> t@[t@.len() - 7] == '\''
                && all_digits(t@.subrange(t@.len() - 6, t@.len() - 4))
                && digits_value(t@.subrange(t@.len() - 6, t@.len() - 4)) == (self@.best / 1000) % 60
                && all_digits(t@.take(t@.len() - 7))
                && digits_value(t@.take(t@.len() - 7)) == self@.best / 60000,
    {
        proof {
            lemma_race_time_reads_back(self@.best);
        }
        let best = self.score.best;
        let millis = best % 1000;
        let seconds = best / 1000;
        let s = seconds % 60;
        let m = seconds / 60;
        let mut out = String::new();
        if m > 0 {
            push_decimal(&mut out, m as u64);
            push_char(&mut out, '\'');
            push_zero_padded(&mut out, s as u64, 2);
        } else {
            push_decimal(&mut out, s as u64);
        }
        push_char(&mut out, '.');
        push_zero_padded(&mut out, millis as u64, 3);
        assert(out@ =~= race_time_text(self@.best));
        out
    }

    /// Reads the XML header of a GBX replay.
    pub fn parse_replay_xml(buf: &[u8]) -> (res: Result<GbxReplayHeader, ParseError>)
        ensures
            matches_replay_outcome(res, replay_outcome(xml_reader_events(buf@))),
    {
        let events = read_xml_events(buf);
        header_from_xml_events(events)
    }
}

/// Whether `c` is a hexadecimal digit.
fn is_hex(c: char) -> (b: bool)
    ensures
        b == is_hex_digit(c),
{
    ('0' <= c && c <= '9') || ('a' <= c && c <= 'f') || ('A' <= c && c <= 'F')
}

/// Applies one attribute `name="value"` of the start tag `element`.
fn apply_one(header: &mut GbxReplayHeader, is_replay: &mut bool, element: &str, name: &str, value: &String) -> (res: Result<(), ParseError>)
    ensures
        match apply_attribute(ScanState { header: old(header)@, is_replay: *old(is_replay) }, element@, name@, value@) {
            Some(st) => res is Ok && final(header)@ == st.header && *final(is_replay) == st.is_replay,
            None => res matches Err(ParseError::HeaderValue(_)),
        },
{
    if same_text(element, "header") {
        if same_text(name, "type") {
            if same_text(value.as_str(), "replay") {
                *is_replay = true;
            }
        } else if same_text(name, "version") {
            header.meta.version = value.clone();
        } else if same_text(name, "exever") {
            header.meta.exever = value.clone();
        } else if same_text(name, "title") {
            header.meta.title = value.clone();
        }
    } else if same_text(element, "map") {
        if same_text(name, "uid") {
            header.map.uid = value.clone();
        } else if same_text(name, "name") {
            header.map.name = value.clone();
        } else if same_text(name, "author") {
            header.map.author = value.clone();
        }
    } else if same_text(element, "desc") {
        if same_text(name, "envir") {
            header.desc.envir = value.clone();
        } else if same_text(name, "mood") {
            header.desc.mood = value.clone();
        } else if same_text(name, "maptype") {
            header.desc.maptype = value.clone();
        } else if same_text(name, "mapstyle") {
            header.desc.mapstyle = value.clone();
        }
    } else if same_text(element, "times") {
        if same_text(name, "best") {
            match parse_u32(value.as_str()) {
                Ok(v) => header.score.best = v,
                Err(e) => return Err(ParseError::HeaderValue(e)),
            }
        } else if same_text(name, "respawns") {
            match parse_u32(value.as_str()) {
                Ok(v) => header.score.respawns = v,
                Err(e) => return Err(ParseError::HeaderValue(e)),
            }
        } else if same_text(name, "stuntscore") {
            match parse_u32(value.as_str()) {
                Ok(v) => header.score.stuntscore = v,
                Err(e) => return Err(ParseError::HeaderValue(e)),
            }
        } else if same_text(name, "validable") {
            match parse_u32(value.as_str()) {
                Ok(v) => header.score.validable = v != 0,
                Err(e) => return Err(ParseError::HeaderValue(e)),
            }
        }
    }
    Ok(())
}

/// Builds the replay header from the XML reader's events: start tags fill
/// it, the first reader failure or unparsable number ends it with that
/// error, and a header without `type="replay"` is `HeaderNotFound`.
pub fn header_from_xml_events(events: Vec<XmlItem>) -> (res: Result<GbxReplayHeader, ParseError>)
    ensures
        matches_replay_outcome(res, replay_outcome(items_view(events@))),
        match replay_outcome(items_view(events@)) {
            ReplayOutcome::XmlFailure(k) => res matches Err(ParseError::XMLParse(e)) && events@[k] == XmlItem::Failure(e),
            _ => true,
        },
{
    let ghost all = events@;
    assert(all.len() == events.len());
    let mut rest = events;
    let mut header = GbxReplayHeader::default();
    let mut is_replay = false;
    let mut i: usize = 0;
    assert(items_view(all).take(0) =~= Seq::<XmlItemView>::empty());
    while rest.len() > 0
        invariant
            i + rest.len() == all.len(),
            all.len() <= usize::MAX,
            all == events@,
            rest@ == all.skip(i as int),
            scan_events(items_view(all).take(i as int)) == ScanOutcome::Running(ScanState { header: header@, is_replay }),
        decreases rest.len(),
    {
        let item = rest.remove(0);
        let ghost before = ScanState { header: header@, is_replay };
        let ghost item_g: XmlItem = item;
        proof {
            assert(item == all[i as int]);
            assert(item_g == all[i as int]);
            assert(items_view(all)[i as int] == item_g@);
            assert(items_view(all).take(i + 1).drop_last() =~= items_view(all).take(i as int));
            assert(items_view(all).take(i + 1).last() == item@);
        }
        match item {
            XmlItem::Start { name, attributes } => {
                assert(item_g == XmlItem::Start { name, attributes });
                let ghost attrs = attributes_view(attributes@);
                let mut j: usize = 0;
                assert(attrs.take(0) =~= Seq::<(Seq<char>, Seq<char>)>::empty());
                while j < attributes.len()
                    invariant
                        j <= attributes.len(),
                        attrs == attributes_view(attributes@),
                        i < all.len(),
                        all == events@,
                        scan_events(items_view(all).take(i as int)) == ScanOutcome::Running(before),
                        items_view(all).take(i + 1).drop_last() == items_view(all).take(i as int),
                        items_view(all).take(i + 1).last() == item_g@,
                        item_g@ == (XmlItemView::Start { name: name@, attributes: attrs }),
                        apply_attributes(before, name@, attrs.take(j as int)) == Some(ScanState { header: header@, is_replay }),
                    decreases attributes.len() - j,
                {
                    proof {
                        assert(attrs.take(j + 1).drop_last() =~= attrs.take(j as int));
                        assert(attrs.take(j + 1).last() == (attributes@[j as int].name@, attributes@[j as int].value@));
                    }
                    let r = apply_one(&mut header, &mut is_replay, name.as_str(), attributes[j].name.as_str(), &attributes[j].value);
                    match r {
                        Ok(()) => {},
                        Err(e) => {
                            proof {
                                lemma_attributes_stay_failed(before, name@, attrs, (j + 1) as nat);
                                assert(attrs.take(attrs.len() as int) =~= attrs);
                                assert(item_g@ == XmlItemView::Start { name: name@, attributes: attrs });
                                assert(scan_events(items_view(all).take(i + 1)) == ScanOutcome::BadValue);
                                lemma_scan_stays_failed(items_view(all), (i + 1) as nat);
                                assert(items_view(all).take(all.len() as int) =~= items_view(all));
                            }
                            return Err(e);
                        },
                    }
                    j = j + 1;
                }
                assert(attrs.take(j as int) =~= attrs);
            },
            XmlItem::Other => {},
            XmlItem::Failure(e) => {
                proof {
                    assert(item_g == XmlItem::Failure(e));
                    assert(scan_events(items_view(all).take(i + 1)) == ScanOutcome::XmlFailure(i as int));
                    assert(all.len() == i + 1 + rest.len());
                    lemma_scan_stays_failed(items_view(all), (i + 1) as nat);
                    assert(items_view(all).take(all.len() as int) =~= items_view(all));
                }
                return Err(ParseError::XMLParse(e));
            },
        }
        i = i + 1;
        assert(rest@ =~= all.skip(i as int));
    }
    assert(items_view(all).take(i as int) =~= items_view(all));
    if is_replay {
        Ok(header)
    } else {
        Err(ParseError::HeaderNotFound)
    }
}

/// Once an attribute fails to parse, applying more attributes still fails.
proof fn lemma_attributes_stay_failed(st: ScanState, element: Seq<char>, attrs: Seq<(Seq<char>, Seq<char>)>, k: nat)
    requires
        k <= attrs.len(),
        apply_attributes(st, element, attrs.take(k as int)) is None,
    ensures
        apply_attributes(st, element, attrs) is None,
    decreases attrs.len() - k,
{
    if k < attrs.len() {
        assert(attrs.take((k + 1) as int).drop_last() =~= attrs.take(k as int));
        lemma_attributes_stay_failed(st, element, attrs, k + 1);
    } else {
        assert(attrs.take(k as int) =~= attrs);
    }
}

/// Once a scan has failed, later events leave the failure as it is.
proof fn lemma_scan_stays_failed(events: Seq<XmlItemView>, k: nat)
    requires
        k <= events.len(),
        !(scan_events(events.take(k as int)) is Running),
    ensures
        scan_events(events) == scan_events(events.take(k as int)),
    decreases events.len() - k,
{
    if k < events.len() {
        assert(events.take((k + 1) as int).drop_last() =~= events.take(k as int));
        lemma_scan_stays_failed(events, k + 1);
    } else {
        assert(events.take(k as int) =~= events);
    }
}

} // verus!
