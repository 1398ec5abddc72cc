//! What the icalendar crate writes and reads.

use icalendar::Component;
use vstd::prelude::*;
use vstd::utf8::is_ascii_chars;

use crate::folding::{can_fold, folds, lemma_ascii_folds};
use crate::json::pair_views;
use crate::order::ordered;
use crate::reading::{can_be_read, lines_of, unfolded};
use crate::text::{concat3, has_part, is_digit, opt_view, same_text, views};

verus! {

/// A property of a calendar or of an event: its name, its value and its parameters.
pub struct Property {
    pub key: String,
    pub value: String,
    pub parameters: Vec<(String, String)>,
}

/// The contents of a property.
#[verifier::ext_equal]
pub struct PropertyView {
    pub key: Seq<char>,
    pub value: Seq<char>,
    pub parameters: Seq<(Seq<char>, Seq<char>)>,
}

impl View for Property {
    type V = PropertyView;

    open spec fn view(&self) -> PropertyView {
        PropertyView {
            key: self.key@,
            value: self.value@,
            parameters: pair_views(self.parameters@),
        }
    }
}

/// The contents of the properties of each event.
pub open spec fn event_views(events: Seq<Vec<Property>>) -> Seq<Seq<PropertyView>> {
    events.map_values(|properties: Vec<Property>| views(properties@))
}

/// A property without parameters.
pub open spec fn plain_property(key: Seq<char>, value: Seq<char>) -> PropertyView {
    PropertyView { key, value, parameters: seq![] }
}

/// Makes a property without parameters.
pub fn make_property(key: &str, value: &str) -> (r: Property)
    ensures
        r@ == plain_property(key@, value@),
{
    let r = Property { key: key.to_owned(), value: value.to_owned(), parameters: Vec::new() };
    assert(r@.parameters =~= seq![]);
    r
}

/// Whether a text is made of letters and digits of ASCII and of signs that mean nothing to a
/// calendar.
pub open spec fn is_plain(text: Seq<char>) -> bool {
    forall|i: int| 0 <= i < text.len() ==> is_plain_char(#[trigger] text[i])
}

/// Whether a character is a letter or a digit of ASCII, a hyphen or a plus sign.
pub open spec fn is_plain_char(c: char) -> bool {
    is_digit(c) || 'a' <= c <= 'z' || 'A' <= c <= 'Z' || c == '-' || c == '+'
}

/// Whether a list of properties has one of a name.
pub open spec fn has_key(properties: Seq<PropertyView>, key: Seq<char>) -> bool {
    exists|i: int| 0 <= i < properties.len() && (#[trigger] properties[i]).key == key
}

/// Whether the value of a property of a name is a text, in which some characters are escaped.
pub open spec fn holds_text(key: Seq<char>) -> bool {
    ||| key == "UID"@
    ||| key == "SUMMARY"@
    ||| key == "DESCRIPTION"@
    ||| key == "VERSION"@
    ||| key == "CALSCALE"@
    ||| key == "PRODID"@
    ||| key == "X-WR-CALNAME"@
}

/// Whether the value of a property of a name is an address, a moment or a number.
pub open spec fn holds_value(key: Seq<char>) -> bool {
    ||| key == "URL"@
    ||| key == "DTSTAMP"@
    ||| key == "LAST-MODIFIED"@
    ||| key == "SEQUENCE"@
    ||| key == "DTSTART"@
    ||| key == "DTEND"@
}

/// A character as it is written in a text.
pub open spec fn escaped_char(c: char) -> Seq<char> {
    if c == '\\' || c == ',' || c == ';' {
        seq!['\\', c]
    } else if c == '\n' {
        seq!['\\', 'n']
    } else {
        seq![c]
    }
}

/// A text as it is written.
pub open spec fn escaped(text: Seq<char>) -> Seq<char>
    decreases text.len(),
{
    if text.len() == 0 {
        seq![]
    } else {
        escaped(text.drop_last()) + escaped_char(text.last())
    }
}

/// The line of a property: its name, a parameter where it has one, and its value.
pub open spec fn property_line(property: PropertyView) -> Seq<char> {
    property.key + (if property.parameters.len() > 0 {
        ";"@ + property.parameters[0].0 + "="@ + property.parameters[0].1
    } else {
        seq![]
    }) + ":"@ + property.value
}

/// The line of a property as it is written, before it is folded. A day is not a text.
pub open spec fn content_line(property: PropertyView) -> Seq<char> {
    if holds_text(property.key) && property.parameters.len() == 0 {
        property_line(plain_property(property.key, escaped(property.value)))
    } else {
        property_line(property)
    }
}

/// Whether a property has a name that is known here, no parameter or that of a day, and a line
/// that can be folded.
pub open spec fn is_writable(property: PropertyView) -> bool {
    &&& holds_text(property.key) || holds_value(property.key)
    &&& property.parameters.len() == 0 || property.parameters == seq![("VALUE"@, "DATE"@)]
    &&& folds(content_line(property))
}

/// Escapes a text.
fn escape(text: &str) -> (r: String)
    ensures
        r@ == escaped(text@),
{
    let mut out: String = String::new();
    for c in it: text.chars()
        invariant
            it.seq() == text@,
            out@ == escaped(text@.take(it.index())),
    {
        let ghost done = text@.take(it.index() + 1);
        let ghost before = out@;
        assert(done.drop_last() =~= text@.take(it.index()));
        if c == '\\' || c == ',' || c == ';' {
            out.push('\\');
            out.push(c);
        } else if c == '\n' {
            out.push('\\');
            out.push('n');
        } else {
            out.push(c);
        }
        assert(out@ =~= before + escaped_char(c));
    }
    assert(text@.take(text@.len() as int) =~= text@);
    out
}

/// Tells whether the value of a property of a name is a text.
fn is_text_key(key: &str) -> (r: bool)
    ensures
        r == holds_text(key@),
{
    same_text(key, "UID") || same_text(key, "SUMMARY") || same_text(key, "DESCRIPTION")
        || same_text(key, "VERSION") || same_text(key, "CALSCALE") || same_text(key, "PRODID")
        || same_text(key, "X-WR-CALNAME")
}

/// Tells whether the line of a property without parameters can be folded.
pub fn can_fold_property(key: &str, value: &str) -> (r: bool)
    ensures
        r == folds(content_line(plain_property(key@, value@))),
{
    let line: String = if is_text_key(key) {
        let text: String = escape(value);
        concat3(key, ":", text.as_str())
    } else {
        concat3(key, ":", value)
    };
    assert(line@ =~= content_line(plain_property(key@, value@)));
    can_fold(line.as_str())
}

/// A text of ASCII stays one when it is escaped.
proof fn lemma_ascii_escaped(text: Seq<char>)
    requires
        is_ascii_chars(text),
    ensures
        is_ascii_chars(escaped(text)),
    decreases text.len(),
{
    if text.len() > 0 {
        lemma_ascii_escaped(text.drop_last());
        assert('\0' <= text[text.len() - 1] <= '\u{7f}');
    }
}

/// A text that is escaped has no line break.
proof fn lemma_escaped_is_unbroken(text: Seq<char>)
    ensures
        !escaped(text).contains('\n'),
    decreases text.len(),
{
    if text.len() > 0 {
        lemma_escaped_is_unbroken(text.drop_last());
        let front = escaped(text.drop_last());
        let end = escaped_char(text.last());
        assert forall|i: int| 0 <= i < escaped(text).len() implies escaped(text)[i] != '\n' by {
            if i < front.len() {
                assert(front.contains(front[i]));
            } else {
                assert(escaped(text)[i] == end[i - front.len()]);
            }
        }
    }
}

/// The line of a text, or of a value without a line break, has no line break.
pub proof fn lemma_unbroken_line(property: PropertyView)
    requires
        is_writable(property),
        holds_text(property.key) && property.parameters.len() == 0 || !property.value.contains(
            '\n',
        ),
    ensures
        !content_line(property).contains('\n'),
{
    reveal_strlit("UID");
    reveal_strlit("SUMMARY");
    reveal_strlit("DESCRIPTION");
    reveal_strlit("VERSION");
    reveal_strlit("CALSCALE");
    reveal_strlit("PRODID");
    reveal_strlit("X-WR-CALNAME");
    reveal_strlit("URL");
    reveal_strlit("DTSTAMP");
    reveal_strlit("LAST-MODIFIED");
    reveal_strlit("SEQUENCE");
    reveal_strlit("DTSTART");
    reveal_strlit("DTEND");
    reveal_strlit("VALUE");
    reveal_strlit("DATE");
    reveal_strlit(";");
    reveal_strlit("=");
    reveal_strlit(":");
    lemma_escaped_is_unbroken(property.value);
    let line = content_line(property);
    let value = if holds_text(property.key) && property.parameters.len() == 0 {
        escaped(property.value)
    } else {
        property.value
    };
    let head = line.take(line.len() - value.len());
    assert(forall|i: int| 0 <= i < property.key.len() ==> property.key[i] != '\n');
    assert forall|i: int| 0 <= i < line.len() implies line[i] != '\n' by {
        if i >= head.len() {
            assert(line[i] == value[i - head.len()]);
            assert(value.contains(value[i - head.len()]));
        }
    }
}

/// A property with a value of ASCII can be written.
pub proof fn lemma_ascii_is_writable(property: PropertyView)
    requires
        holds_text(property.key) || holds_value(property.key),
        property.parameters.len() == 0 || property.parameters == seq![("VALUE"@, "DATE"@)],
        is_ascii_chars(property.value),
    ensures
        is_writable(property),
{
    reveal_strlit("UID");
    reveal_strlit("SUMMARY");
    reveal_strlit("DESCRIPTION");
    reveal_strlit("VERSION");
    reveal_strlit("CALSCALE");
    reveal_strlit("PRODID");
    reveal_strlit("X-WR-CALNAME");
    reveal_strlit("URL");
    reveal_strlit("DTSTAMP");
    reveal_strlit("LAST-MODIFIED");
    reveal_strlit("SEQUENCE");
    reveal_strlit("DTSTART");
    reveal_strlit("DTEND");
    reveal_strlit("VALUE");
    reveal_strlit("DATE");
    reveal_strlit(";");
    reveal_strlit("=");
    reveal_strlit(":");
    lemma_ascii_escaped(property.value);
    assert(is_ascii_chars(property.key));
    assert(is_ascii_chars(content_line(property)));
    lemma_ascii_folds(content_line(property));
}

/// Whether all properties can be written.
pub open spec fn are_writable(properties: Seq<PropertyView>) -> bool {
    forall|i: int| 0 <= i < properties.len() ==> is_writable(#[trigger] properties[i])
}

/// Whether an event can be written, with an identifier and a stamp of its own.
pub open spec fn is_whole_event(properties: Seq<PropertyView>) -> bool {
    &&& are_writable(properties)
    &&& has_key(properties, "UID"@)
    &&& has_key(properties, "DTSTAMP"@)
}

/// Whether a character is a printable one of ASCII that calendars write as it is.
pub open spec fn is_simple_char(c: char) -> bool {
    ' ' <= c <= '~' && c != '\\' && c != ',' && c != ';'
}

/// Whether a text is made of characters that calendars write as they are.
pub open spec fn is_simple(text: Seq<char>) -> bool {
    forall|i: int| 0 <= i < text.len() ==> is_simple_char(#[trigger] text[i])
}

/// Whether a property makes one line: it has at most one parameter, its value is written as it is,
/// and the line is no longer than lines may be.
pub open spec fn is_short(property: PropertyView) -> bool {
    &&& property.parameters.len() <= 1
    &&& is_simple(property.value)
    &&& property_line(property).len() <= 75
}

/// Whether a property of a list makes one line and is the last one of its name.
pub open spec fn is_one_line(properties: Seq<PropertyView>, at: int) -> bool {
    &&& 0 <= at < properties.len()
    &&& forall|i: int|
        at < i < properties.len() ==> (#[trigger] properties[i]).key != properties[at].key
    &&& is_short(properties[at])
}

/// Plain text is written as it is.
pub proof fn lemma_plain_is_simple(text: Seq<char>)
    requires
        is_plain(text),
    ensures
        is_simple(text),
{
    assert forall|i: int| 0 <= i < text.len() implies is_simple_char(#[trigger] text[i]) by {
        assert(is_plain_char(text[i]));
    }
}

/// Whether a line stands in a text, with line ends before and behind it.
pub open spec fn has_line(text: Seq<char>, line: Seq<char>) -> bool {
    has_part(text, "\r\n"@ + line + "\r\n"@)
}

/// Whether the lines of properties have no line break in them.
pub open spec fn are_unbroken(properties: Seq<PropertyView>) -> bool {
    forall|i: int|
        0 <= i < properties.len() ==> !content_line(#[trigger] properties[i]).contains('\n')
}

/// Whether no two properties have one name.
pub open spec fn have_own_keys(properties: Seq<PropertyView>) -> bool {
    forall|i: int, j: int|
        0 <= i < j < properties.len() ==> (#[trigger] properties[i]).key != (
        #[trigger] properties[j]).key
}

/// Properties are ordered by their names.
pub open spec fn by_key() -> spec_fn(PropertyView) -> Seq<char> {
    |property: PropertyView| property.key
}

/// The lines of properties.
pub open spec fn content_lines(properties: Seq<PropertyView>) -> Seq<Seq<char>> {
    properties.map_values(|property: PropertyView| content_line(property))
}

/// The lines of events: the properties of each, ordered by their names, between two marks.
pub open spec fn event_lines(events: Seq<Seq<PropertyView>>) -> Seq<Seq<char>>
    decreases events.len(),
{
    if events.len() == 0 {
        seq![]
    } else {
        event_lines(events.drop_last()) + seq!["BEGIN:VEVENT"@] + content_lines(
            ordered(events.last(), by_key()),
        ) + seq!["END:VEVENT"@]
    }
}

/// The lines of a calendar: its properties and its events between two marks, each line ended.
pub open spec fn calendar_lines(
    properties: Seq<PropertyView>,
    events: Seq<Seq<PropertyView>>,
) -> Seq<Seq<char>> {
    seq!["BEGIN:VCALENDAR"@] + content_lines(properties) + event_lines(events) + seq![
        "END:VCALENDAR"@,
        ""@,
    ]
}

/// The text that the icalendar crate writes for a calendar with these properties and events.
pub uninterp spec fn rendered(
    properties: Seq<PropertyView>,
    events: Seq<Seq<PropertyView>>,
) -> Seq<char>;

/// Builds an icalendar `Calendar` from `Calendar::empty`, `append_property` and `push`, its events
/// from `Event::new` and `append_property`, and calls `to_string`. Without an identifier or a
/// stamp of its own an event would get a random one or the time. Folding a line goes back from
/// where it should be cut to a place between two characters, and panics or does not end where that
/// leads it back to where it came from: such lines are left out. Stated of the text: it depends on
/// the properties alone, it opens and closes a calendar, a property of an event that makes one
/// line stands in it as that line, and, where no value brings a line break of its own, it has the
/// lines of the calendar once it is unfolded. Where longer lines are folded is left to the name
/// `rendered`.
#[verifier::external_body]
pub(crate) fn render(properties: &Vec<Property>, events: &Vec<Vec<Property>>) -> (r: String)
    requires
        are_writable(views(properties@)),
        forall|i: int| 0 <= i < events@.len() ==> is_whole_event(views(#[trigger] events@[i]@)),
    ensures
        r@ == rendered(views(properties@), event_views(events@)),
        exists|inner: Seq<char>| r@ == "BEGIN:VCALENDAR\r\n"@ + inner + "END:VCALENDAR\r\n"@,
        forall|i: int, at: int|
            0 <= i < events@.len() && #[trigger] is_one_line(views(events@[i]@), at) ==> has_line(
                r@,
                property_line(views(events@[i]@)[at]),
            ),
        are_unbroken(views(properties@)) && (forall|i: int|
            0 <= i < events@.len() ==> are_unbroken(views(#[trigger] events@[i]@)) && have_own_keys(
                views(events@[i]@),
            )) ==> lines_of(unfolded(r@)) == calendar_lines(
            views(properties@),
            event_views(events@),
        ),
{
    let convert = |property: &Property| {
        let mut out = icalendar::Property::new(&property.key, &property.value);
        property.parameters.iter().for_each(|pair| { out.add_parameter(&pair.0, &pair.1); });
        out
    };
    let mut calendar = icalendar::Calendar::empty();
    calendar.properties.extend(properties.iter().map(convert));
    calendar.extend(events.iter().map(|properties| {
        let mut event = icalendar::Event::new();
        for property in properties {
            event.append_property(convert(property));
        }
        event
    }));
    calendar.to_string()
}

/// Lists the properties that icalendar's `Calendar::new` starts with: the version of the format,
/// the name of the crate as the product, and the Gregorian calendar.
#[verifier::external_body]
pub(crate) fn default_properties() -> (r: Vec<Property>)
    ensures
        views(r@) == seq![
            plain_property("VERSION"@, "2.0"@),
            plain_property("PRODID"@, "ICALENDAR-RS"@),
            plain_property("CALSCALE"@, "GREGORIAN"@),
        ],
{
    icalendar::Calendar::new().properties.iter().map(|property| Property {
        key: property.key().to_owned(),
        value: property.value().to_owned(),
        parameters: Vec::new(),
    }).collect()
}

/// What the icalendar crate says against reading a text as a calendar, if anything.
pub uninterp spec fn reading_problem(text: Seq<char>) -> Option<Seq<char>>;

/// Parses a text as an icalendar `Calendar` and gives the message of a failure. Parsing calls
/// itself for each component in a component, and the message has a mark that is indented by the
/// column of the failure, which cannot be over 65535. Where all lines are regular, a failure lies
/// at a mark or before the colon of a property. Which texts it reads is left to the name
/// `reading_problem`.
#[verifier::external_body]
pub(crate) fn read_problem(text: &str) -> (r: Option<String>)
    requires
        can_be_read(text@),
    ensures
        opt_view(r) == reading_problem(text@),
{
    text.parse::<icalendar::Calendar>().err()
}

/// The lines of a title, a description and an address, as they are written: the first two are
/// texts, the third is not.
pub proof fn law_plain_lines(text: Seq<char>)
    ensures
        content_line(plain_property("SUMMARY"@, text)) == "SUMMARY:"@ + escaped(text),
        content_line(plain_property("DESCRIPTION"@, text)) == "DESCRIPTION:"@ + escaped(text),
        content_line(plain_property("URL"@, text)) == "URL:"@ + text,
{
    reveal_strlit("SUMMARY");
    reveal_strlit("SUMMARY:");
    reveal_strlit("DESCRIPTION");
    reveal_strlit("DESCRIPTION:");
    reveal_strlit("URL");
    reveal_strlit("URL:");
    reveal_strlit("UID");
    reveal_strlit("VERSION");
    reveal_strlit("CALSCALE");
    reveal_strlit("PRODID");
    reveal_strlit("X-WR-CALNAME");
    reveal_strlit(":");
    assert("URL"@[1] != "UID"@[1]);
    assert("SUMMARY"@ + seq![] + ":"@ =~= "SUMMARY:"@);
    assert("DESCRIPTION"@ + seq![] + ":"@ =~= "DESCRIPTION:"@);
    assert("URL"@ + seq![] + ":"@ =~= "URL:"@);
}

/// In a text a backslash, a comma and a semicolon get a backslash in front, a line break becomes a
/// backslash and the letter n, and all else stays.
pub proof fn law_escaped(text: Seq<char>, c: char)
    ensures
        escaped(seq![]) == Seq::<char>::empty(),
        c == '\\' || c == ',' || c == ';' ==> escaped(text.push(c)) == escaped(text).push('\\').push(
            c,
        ),
        c == '\n' ==> escaped(text.push(c)) == escaped(text).push('\\').push('n'),
        c != '\\' && c != ',' && c != ';' && c != '\n' ==> escaped(text.push(c)) == escaped(
            text,
        ).push(c),
{
    assert(text.push(c).drop_last() =~= text);
    assert(escaped(text) + escaped_char(c) =~= escaped(text.push(c)));
}

} // verus!
