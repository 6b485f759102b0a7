//! Where each field of a parsed replay header comes from: the last
//! attribute of its name on a start tag of its element, whatever came
//! before it.
use vstd::prelude::*;
use vstd::string::*;

use crate::gbx_parser::replay_parser::{apply_attribute, apply_attributes, replay_outcome, scan_events, ScanState, XmlItemView};
use crate::text::parsed_u32;

verus! {

/// The value of the last attribute `name` among `attributes`.
pub open spec fn last_value_in(attributes: Seq<(Seq<char>, Seq<char>)>, name: Seq<char>) -> Option<Seq<char>>
    decreases attributes.len(),
{
    if attributes.len() == 0 {
        None
    } else if attributes.last().0 == name {
        Some(attributes.last().1)
    } else {
        last_value_in(attributes.drop_last(), name)
    }
}

/// The value of the last attribute `name` of one start tag `tag`, when
/// the tag is an `element`.
pub open spec fn value_on_tag(tag: Seq<char>, attributes: Seq<(Seq<char>, Seq<char>)>, element: Seq<char>, name: Seq<char>) -> Option<Seq<char>> {
    if tag == element { last_value_in(attributes, name) } else { None }
}

/// The value of the last attribute `name` that a start tag `element`
/// carries among `events`.
pub open spec fn last_value(events: Seq<XmlItemView>, element: Seq<char>, name: Seq<char>) -> Option<Seq<char>>
    decreases events.len(),
{
    if events.len() == 0 {
        None
    } else {
        let here = match events.last() {
            XmlItemView::Start { name: tag, attributes } => value_on_tag(tag, attributes, element, name),
            _ => None,
        };
        if here is Some { here } else { last_value(events.drop_last(), element, name) }
    }
}

/// Whether one of `attributes` is `type="replay"`.
pub open spec fn has_replay_type(attributes: Seq<(Seq<char>, Seq<char>)>) -> bool
    decreases attributes.len(),
{
    attributes.len() > 0 && (attributes.last() == ("type"@, "replay"@) || has_replay_type(attributes.drop_last()))
}

/// Whether a `header` start tag among `events` carries `type="replay"`.
pub open spec fn declares_replay(events: Seq<XmlItemView>) -> bool
    decreases events.len(),
{
    events.len() > 0 && (match events.last() {
        XmlItemView::Start { name: tag, attributes } => tag == "header"@ && has_replay_type(attributes),
        _ => false,
    } || declares_replay(events.drop_last()))
}

/// A text field as read: the value given, or the empty text.
spec fn text_read(v: Option<Seq<char>>) -> Seq<char> {
    match v {
        Some(t) => t,
        None => Seq::empty(),
    }
}

/// A number field as read: the value given read as a `u32`, or zero.
spec fn number_read(v: Option<Seq<char>>) -> u32 {
    match v {
        Some(t) => match parsed_u32(t) {
            Some(n) => n,
            None => 0,
        },
        None => 0,
    }
}

/// A flag as read: whether the value given reads as a number other than
/// zero; false when none is given.
spec fn flag_read(v: Option<Seq<char>>) -> bool {
    match v {
        Some(t) => match parsed_u32(t) {
            Some(n) => n != 0,
            None => false,
        },
        None => false,
    }
}

spec fn number_reads(v: Option<Seq<char>>) -> bool {
    v is Some ==> parsed_u32(v->Some_0) is Some
}

spec fn text_after(old: Seq<char>, here: Option<Seq<char>>) -> Seq<char> {
    if here is Some { text_read(here) } else { old }
}

spec fn number_after(old: u32, here: Option<Seq<char>>) -> u32 {
    if here is Some { number_read(here) } else { old }
}

spec fn flag_after(old: bool, here: Option<Seq<char>>) -> bool {
    if here is Some { flag_read(here) } else { old }
}

/// The lengths of the tag and attribute names the header reads, which
/// tell apart the names of one tag and the tags themselves.
proof fn lemma_names_lengths()
    ensures
        "header"@.len() == 6,
        "map"@.len() == 3,
        "desc"@.len() == 4,
        "times"@.len() == 5,
        "type"@.len() == 4,
        "version"@.len() == 7,
        "exever"@.len() == 6,
        "title"@.len() == 5,
        "uid"@.len() == 3,
        "name"@.len() == 4,
        "author"@.len() == 6,
        "envir"@.len() == 5,
        "mood"@.len() == 4,
        "maptype"@.len() == 7,
        "mapstyle"@.len() == 8,
        "best"@.len() == 4,
        "respawns"@.len() == 8,
        "stuntscore"@.len() == 10,
        "validable"@.len() == 9,
{
    reveal_strlit("header");
    reveal_strlit("map");
    reveal_strlit("desc");
    reveal_strlit("times");
    reveal_strlit("type");
    reveal_strlit("version");
    reveal_strlit("exever");
    reveal_strlit("title");
    reveal_strlit("uid");
    reveal_strlit("name");
    reveal_strlit("author");
    reveal_strlit("envir");
    reveal_strlit("mood");
    reveal_strlit("maptype");
    reveal_strlit("mapstyle");
    reveal_strlit("best");
    reveal_strlit("respawns");
    reveal_strlit("stuntscore");
    reveal_strlit("validable");
}

/// What the attributes of one start tag do to each field of the header.
proof fn lemma_attributes_fields(st: ScanState, tag: Seq<char>, attrs: Seq<(Seq<char>, Seq<char>)>)
    requires
        apply_attributes(st, tag, attrs) is Some,
    ensures
        ({
            let s = apply_attributes(st, tag, attrs)->Some_0;
            let h = s.header;
            let o = st.header;
            &&& h.version == text_after(o.version, value_on_tag(tag, attrs, "header"@, "version"@))
            &&& h.exever == text_after(o.exever, value_on_tag(tag, attrs, "header"@, "exever"@))
            &&& h.title == text_after(o.title, value_on_tag(tag, attrs, "header"@, "title"@))
            &&& h.uid == text_after(o.uid, value_on_tag(tag, attrs, "map"@, "uid"@))
            &&& h.name == text_after(o.name, value_on_tag(tag, attrs, "map"@, "name"@))
            &&& h.author == text_after(o.author, value_on_tag(tag, attrs, "map"@, "author"@))
            &&& h.envir == text_after(o.envir, value_on_tag(tag, attrs, "desc"@, "envir"@))
            &&& h.mood == text_after(o.mood, value_on_tag(tag, attrs, "desc"@, "mood"@))
            &&& h.maptype == text_after(o.maptype, value_on_tag(tag, attrs, "desc"@, "maptype"@))
            &&& h.mapstyle == text_after(o.mapstyle, value_on_tag(tag, attrs, "desc"@, "mapstyle"@))
            &&& h.best == number_after(o.best, value_on_tag(tag, attrs, "times"@, "best"@))
            &&& h.respawns == number_after(o.respawns, value_on_tag(tag, attrs, "times"@, "respawns"@))
            &&& h.stuntscore == number_after(o.stuntscore, value_on_tag(tag, attrs, "times"@, "stuntscore"@))
            &&& h.validable == flag_after(o.validable, value_on_tag(tag, attrs, "times"@, "validable"@))
            &&& s.is_replay == (st.is_replay || (tag == "header"@ && has_replay_type(attrs)))
            &&& number_reads(value_on_tag(tag, attrs, "times"@, "best"@))
            &&& number_reads(value_on_tag(tag, attrs, "times"@, "respawns"@))
            &&& number_reads(value_on_tag(tag, attrs, "times"@, "stuntscore"@))
            &&& number_reads(value_on_tag(tag, attrs, "times"@, "validable"@))
        }),
    decreases attrs.len(),
{
    if attrs.len() > 0 {
        lemma_attributes_fields(st, tag, attrs.drop_last());
        let s0 = apply_attributes(st, tag, attrs.drop_last())->Some_0;
        assert(apply_attributes(st, tag, attrs) == apply_attribute(s0, tag, attrs.last().0, attrs.last().1));
        lemma_names_lengths();
    }
}

/// What the events scanned so far have made of each field of the header.
proof fn lemma_scan_fields(events: Seq<XmlItemView>)
    requires
        scan_events(events) is Running,
    ensures
        ({
            let s = scan_events(events)->Running_0;
            let h = s.header;
            &&& h.version == text_read(last_value(events, "header"@, "version"@))
            &&& h.exever == text_read(last_value(events, "header"@, "exever"@))
            &&& h.title == text_read(last_value(events, "header"@, "title"@))
            &&& h.uid == text_read(last_value(events, "map"@, "uid"@))
            &&& h.name == text_read(last_value(events, "map"@, "name"@))
            &&& h.author == text_read(last_value(events, "map"@, "author"@))
            &&& h.envir == text_read(last_value(events, "desc"@, "envir"@))
            &&& h.mood == text_read(last_value(events, "desc"@, "mood"@))
            &&& h.maptype == text_read(last_value(events, "desc"@, "maptype"@))
            &&& h.mapstyle == text_read(last_value(events, "desc"@, "mapstyle"@))
            &&& h.best == number_read(last_value(events, "times"@, "best"@))
            &&& h.respawns == number_read(last_value(events, "times"@, "respawns"@))
            &&& h.stuntscore == number_read(last_value(events, "times"@, "stuntscore"@))
            &&& h.validable == flag_read(last_value(events, "times"@, "validable"@))
            &&& s.is_replay == declares_replay(events)
            &&& number_reads(last_value(events, "times"@, "best"@))
            &&& number_reads(last_value(events, "times"@, "respawns"@))
            &&& number_reads(last_value(events, "times"@, "stuntscore"@))
            &&& number_reads(last_value(events, "times"@, "validable"@))
        }),
    decreases events.len(),
{
    if events.len() > 0 {
        lemma_scan_fields(events.drop_last());
        let prev = scan_events(events.drop_last())->Running_0;
        match events.last() {
            XmlItemView::Start { name, attributes } => {
                lemma_attributes_fields(prev, name, attributes);
            },
            _ => {},
        }
    }
}

/// Each field of a parsed replay header is the value of the last
/// attribute of its name on a start tag of its element: `version`,
/// `exever` and `title` on `header`; `uid`, `name` and `author` on `map`;
/// `envir`, `mood`, `maptype` and `mapstyle` on `desc`; `best`,
/// `respawns`, `stuntscore` and `validable` on `times`. Texts are taken as
/// they are, numbers read as a `u32`, and `validable` is whether its number
/// is not zero (`"1"` gives true, `"0"` false). A field that no attribute
/// gives stays empty, zero or false.
pub proof fn lemma_parsed_fields_are_last_values(events: Seq<XmlItemView>)
    requires
        replay_outcome(events) is Parsed,
    ensures
        ({
            let h = replay_outcome(events)->Parsed_0;
            let version = last_value(events, "header"@, "version"@);
            let exever = last_value(events, "header"@, "exever"@);
            let title = last_value(events, "header"@, "title"@);
            let uid = last_value(events, "map"@, "uid"@);
            let name = last_value(events, "map"@, "name"@);
            let author = last_value(events, "map"@, "author"@);
            let envir = last_value(events, "desc"@, "envir"@);
            let mood = last_value(events, "desc"@, "mood"@);
            let maptype = last_value(events, "desc"@, "maptype"@);
            let mapstyle = last_value(events, "desc"@, "mapstyle"@);
            let best = last_value(events, "times"@, "best"@);
            let respawns = last_value(events, "times"@, "respawns"@);
            let stuntscore = last_value(events, "times"@, "stuntscore"@);
            let validable = last_value(events, "times"@, "validable"@);
            &&& version == Some(h.version) || (version is None && h.version.len() == 0)
            &&& exever == Some(h.exever) || (exever is None && h.exever.len() == 0)
            &&& title == Some(h.title) || (title is None && h.title.len() == 0)
            &&& uid == Some(h.uid) || (uid is None && h.uid.len() == 0)
            &&& name == Some(h.name) || (name is None && h.name.len() == 0)
            &&& author == Some(h.author) || (author is None && h.author.len() == 0)
            &&& envir == Some(h.envir) || (envir is None && h.envir.len() == 0)
            &&& mood == Some(h.mood) || (mood is None && h.mood.len() == 0)
            &&& maptype == Some(h.maptype) || (maptype is None && h.maptype.len() == 0)
            &&& mapstyle == Some(h.mapstyle) || (mapstyle is None && h.mapstyle.len() == 0)
            &&& (best matches Some(t) && parsed_u32(t) == Some(h.best)) || (best is None && h.best == 0)
            &&& (respawns matches Some(t) && parsed_u32(t) == Some(h.respawns)) || (respawns is None && h.respawns == 0)
            &&& (stuntscore matches Some(t) && parsed_u32(t) == Some(h.stuntscore)) || (stuntscore is None && h.stuntscore == 0)
            &&& (validable matches Some(t) && parsed_u32(t) matches Some(k) && h.validable == (k != 0))
                || (validable is None && !h.validable)
        }),
{
    lemma_scan_fields(events);
}

/// When the reader fails nowhere and every number reads, the document is
/// a replay header exactly when a `header` tag carries `type="replay"`.
pub proof fn lemma_replay_iff_declared(events: Seq<XmlItemView>)
    requires
        replay_outcome(events) is Parsed || replay_outcome(events) is NotReplay,
    ensures
        (replay_outcome(events) is Parsed) == declares_replay(events),
{
    lemma_scan_fields(events);
}

} // verus!
