//! Which texts can be handed to a reader of calendars.
//!
//! The reader of the icalendar crate calls itself for each component in a component, and points at
//! a failure with as many blanks as its column has bytes before it. So what is in a text has to be
//! bounded in depth, and its lines in length where a failure can lie.

use vstd::prelude::*;
use vstd::string::*;
use vstd::utf8::encode_utf8;

use crate::text::{
    ascii_lowercase, chars_of, is_digit, same_text, stands_at, text_of, to_ascii_lowercase, views,
};

verus! {

/// The most components that may be open at a time.
pub const MAX_DEPTH: usize = 64;

/// The most bytes that may stand before a failure in a line, once it is unfolded.
pub const MAX_UNFOLDED_BYTES: usize = 65_534;

/// Whether a character marks a line that goes on with the one before it.
pub open spec fn is_fold_mark(c: char) -> bool {
    c == ' ' || c == '\t'
}

/// How many characters a fold at the start of a text has: a line end with a mark behind it, or
/// none.
pub open spec fn fold_len(text: Seq<char>) -> int {
    if text.len() >= 3 && text[0] == '\r' && text[1] == '\n' && is_fold_mark(text[2]) {
        3
    } else if text.len() >= 2 && text[0] == '\n' && is_fold_mark(text[1]) {
        2
    } else {
        0
    }
}

/// A text without its folds.
pub open spec fn unfolded(text: Seq<char>) -> Seq<char>
    decreases text.len(),
{
    if text.len() == 0 {
        seq![]
    } else if fold_len(text) > 0 {
        unfolded(text.skip(fold_len(text)))
    } else {
        seq![text[0]] + unfolded(text.skip(1))
    }
}

/// The lines of a text, where `line` is what the first of them has before it. Carriage return and
/// line feed end a line; the last line is not ended.
pub open spec fn lines_from(text: Seq<char>, line: Seq<char>) -> Seq<Seq<char>>
    decreases text.len(),
{
    if text.len() == 0 {
        seq![line]
    } else if text.len() >= 2 && text[0] == '\r' && text[1] == '\n' {
        seq![line] + lines_from(text.skip(2), seq![])
    } else {
        lines_from(text.skip(1), line.push(text[0]))
    }
}

/// The lines of a text.
pub open spec fn lines_of(text: Seq<char>) -> Seq<Seq<char>> {
    lines_from(text, seq![])
}

/// Whether a character is one of names: a letter or a digit of ASCII, or a hyphen.
pub open spec fn is_name_char(c: char) -> bool {
    is_digit(c) || 'a' <= c <= 'z' || 'A' <= c <= 'Z' || c == '-'
}

/// Whether a text is made of characters of names.
pub open spec fn is_name(text: Seq<char>) -> bool {
    forall|i: int| 0 <= i < text.len() ==> is_name_char(#[trigger] text[i])
}

/// Where the first colon of a line stands, or how long a line without one is.
pub open spec fn colon_of(line: Seq<char>) -> int
    decreases line.len(),
{
    if line.len() == 0 || line[0] == ':' {
        0
    } else {
        1 + colon_of(line.skip(1))
    }
}

/// Whether a line is a word in letters of either case, a colon and a name.
pub open spec fn is_mark(line: Seq<char>, word: Seq<char>) -> bool {
    let at = colon_of(line);
    at < line.len() && ascii_lowercase(line.take(at)) == word && is_name(line.skip(at + 1))
}

/// Whether a line opens a component.
pub open spec fn opens(line: Seq<char>) -> bool {
    is_mark(line, "begin"@)
}

/// Whether a line closes a component.
pub open spec fn closes(line: Seq<char>) -> bool {
    is_mark(line, "end"@)
}

/// Whether a line is a property: a name, parameters with plain names and values, a colon, and
/// whatever is behind it.
pub open spec fn is_property(line: Seq<char>) -> bool {
    let at = colon_of(line);
    let head = line.take(at);
    &&& 0 < at < line.len()
    &&& is_name_char(line[0])
    &&& forall|i: int|
        0 <= i < at ==> is_name_char(#[trigger] line[i]) || line[i] == ';' || line[i] == '='
    &&& ascii_lowercase(head) != "begin"@
    &&& ascii_lowercase(head) != "end"@
}

/// Whether a reader takes a line, once it is ended, for itself: as nothing, as a mark, or as a
/// property whose value goes up to the end of the line.
pub open spec fn is_regular(line: Seq<char>) -> bool {
    line.len() == 0 || opens(line) || closes(line) || is_property(line)
}

/// How often a text in lower case has the word that opens a component.
pub open spec fn begins_in(lower: Seq<char>) -> nat
    decreases lower.len(),
{
    if lower.len() == 0 {
        0
    } else {
        (if stands_at(lower, "begin:"@, 0) {
            1nat
        } else {
            0
        }) + begins_in(lower.skip(1))
    }
}

/// How often lines have the word that opens a component.
pub open spec fn begins_of(lines: Seq<Seq<char>>) -> nat
    decreases lines.len(),
{
    if lines.len() == 0 {
        0
    } else {
        begins_in(ascii_lowercase(lines[0])) + begins_of(lines.skip(1))
    }
}

/// Whether no more than `MAX_DEPTH` components can be open at a time in these lines, where `depth`
/// are open before them. From the first line on that is not regular, or not ended, a reader may
/// pass over whatever closes a component, and find one wherever the word for it stands.
pub open spec fn nests_within(lines: Seq<Seq<char>>, depth: nat) -> bool
    decreases lines.len(),
{
    if lines.len() <= 1 || !is_regular(lines[0]) {
        depth + begins_of(lines) <= MAX_DEPTH
    } else {
        let after: nat = if opens(lines[0]) {
            depth + 1
        } else if closes(lines[0]) && depth > 0 {
            (depth - 1) as nat
        } else {
            depth
        };
        after <= MAX_DEPTH && nests_within(lines.skip(1), after)
    }
}

/// Whether lines are short enough.
pub open spec fn are_short(lines: Seq<Seq<char>>) -> bool {
    forall|i: int|
        0 <= i < lines.len() ==> encode_utf8(#[trigger] lines[i]).len() <= MAX_UNFOLDED_BYTES
}

/// How far into a regular line a failure can lie: nowhere behind the colon of a property, since any
/// value will do. Up to there the line is ASCII, and has as many bytes as characters.
pub open spec fn reach_of(line: Seq<char>) -> int {
    if opens(line) || closes(line) {
        line.len() as int
    } else {
        colon_of(line)
    }
}

/// Whether a failure in these lines has a column that can be pointed at. From the first line on
/// that is not regular, or not ended, it may lie anywhere.
pub open spec fn points_within(lines: Seq<Seq<char>>) -> bool
    decreases lines.len(),
{
    if lines.len() <= 1 || !is_regular(lines[0]) {
        are_short(lines)
    } else {
        reach_of(lines[0]) <= MAX_UNFOLDED_BYTES && points_within(lines.skip(1))
    }
}

/// Whether a text can be handed to a reader: once it is unfolded, a failure can be pointed at
/// wherever it lies, and no more than `MAX_DEPTH` components are open at a time.
pub open spec fn can_be_read(text: Seq<char>) -> bool {
    let lines = lines_of(unfolded(text));
    points_within(lines) && nests_within(lines, 0)
}

/// Takes the folds out of a text.
fn unfold(text: &Vec<char>) -> (r: Vec<char>)
    ensures
        r@ == unfolded(text@),
{
    let total: usize = text.len();
    let mut out: Vec<char> = Vec::new();
    let mut i: usize = 0;
    assert(text@.skip(0) =~= text@);
    assert(out@ + unfolded(text@) =~= unfolded(text@));
    while i < total
        invariant
            total == text@.len(),
            i <= total,
            unfolded(text@) == out@ + unfolded(text@.skip(i as int)),
        decreases total - i,
    {
        let ghost rest = text@.skip(i as int);
        assert(forall|k: int| 0 <= k < rest.len() ==> #[trigger] rest[k] == text@[i + k]);
        assert(forall|k: int|
            0 <= k <= rest.len() ==> #[trigger] rest.skip(k) =~= text@.skip(i + k));
        let left: usize = total - i;
        if left >= 3 && text[i] == '\r' && text[i + 1] == '\n' && (text[i + 2] == ' ' || text[i + 2]
            == '\t') {
            assert(fold_len(rest) == 3);
            i = i + 3;
        } else if left >= 2 && text[i] == '\n' && (text[i + 1] == ' ' || text[i + 1] == '\t') {
            assert(fold_len(rest) == 2);
            i = i + 2;
        } else {
            assert(fold_len(rest) == 0);
            let ghost before = out@;
            out.push(text[i]);
            assert(before + (seq![rest[0]] + unfolded(rest.skip(1))) =~= out@ + unfolded(
                rest.skip(1),
            ));
            i = i + 1;
        }
    }
    assert(text@.skip(i as int) =~= seq![]);
    assert(out@ + unfolded(text@.skip(i as int)) =~= out@);
    out
}

/// Splits a text into its lines.
fn split_lines(text: &Vec<char>) -> (r: Vec<String>)
    ensures
        views(r@) == lines_of(text@),
{
    let total: usize = text.len();
    let mut lines: Vec<String> = Vec::new();
    let mut from: usize = 0;
    let mut i: usize = 0;
    assert(text@.skip(0) =~= text@);
    assert(text@.subrange(0, 0) =~= seq![]);
    assert(views(lines@) + lines_of(text@) =~= lines_of(text@));
    while i < total
        invariant
            total == text@.len(),
            from <= i <= total,
            lines_of(text@) == views(lines@) + lines_from(
                text@.skip(i as int),
                text@.subrange(from as int, i as int),
            ),
        decreases total - i,
    {
        let ghost rest = text@.skip(i as int);
        let ghost line = text@.subrange(from as int, i as int);
        assert(forall|k: int| 0 <= k < rest.len() ==> #[trigger] rest[k] == text@[i + k]);
        if i + 1 < total && text[i] == '\r' && text[i + 1] == '\n' {
            let ghost before = views(lines@);
            lines.push(text_of(text, from, i));
            assert(views(lines@) =~= before.push(line));
            assert(rest.skip(2) =~= text@.skip(i + 2));
            assert(text@.subrange(i + 2, i + 2) =~= seq![]);
            assert(before + (seq![line] + lines_from(rest.skip(2), seq![])) =~= views(lines@)
                + lines_from(rest.skip(2), seq![]));
            i = i + 2;
            from = i;
        } else {
            assert(rest.skip(1) =~= text@.skip(i + 1));
            assert(line.push(rest[0]) =~= text@.subrange(from as int, i + 1));
            i = i + 1;
        }
    }
    let ghost before = views(lines@);
    let ghost line = text@.subrange(from as int, i as int);
    assert(text@.skip(i as int) =~= seq![]);
    lines.push(text_of(text, from, i));
    assert(views(lines@) =~= before.push(line));
    assert(before + seq![line] =~= views(lines@));
    lines
}

/// Tells whether a character is one of names.
fn has_name_char(c: char) -> (r: bool)
    ensures
        r == is_name_char(c),
{
    '0' <= c && c <= '9' || 'a' <= c && c <= 'z' || 'A' <= c && c <= 'Z' || c == '-'
}

/// Finds the first colon of a line.
fn find_colon(line: &Vec<char>) -> (r: usize)
    ensures
        r == colon_of(line@),
        r <= line@.len(),
{
    let mut i: usize = 0;
    assert(line@.skip(0) =~= line@);
    while i < line.len() && line[i] != ':'
        invariant
            i <= line@.len(),
            colon_of(line@) == i + colon_of(line@.skip(i as int)),
        decreases line@.len() - i,
    {
        assert(line@.skip(i as int).skip(1) =~= line@.skip(i + 1));
        i = i + 1;
    }
    i
}

/// Tells whether the characters of a line from a place on make a name.
fn check_name(line: &Vec<char>, from: usize) -> (r: bool)
    requires
        from <= line@.len(),
    ensures
        r == is_name(line@.skip(from as int)),
{
    let ghost name = line@.skip(from as int);
    let mut i: usize = from;
    while i < line.len()
        invariant
            from <= i <= line@.len(),
            name == line@.skip(from as int),
            forall|k: int| 0 <= k < i - from ==> is_name_char(#[trigger] name[k]),
        decreases line@.len() - i,
    {
        assert(name[i - from] == line@[i as int]);
        if !has_name_char(line[i]) {
            return false;
        }
        i = i + 1;
    }
    true
}

/// Tells whether the characters of a line up to a place are those of a name with parameters.
fn check_head(line: &Vec<char>, to: usize) -> (r: bool)
    requires
        to <= line@.len(),
    ensures
        r == (forall|i: int|
            0 <= i < to ==> is_name_char(#[trigger] line@[i]) || line@[i] == ';' || line@[i]
                == '='),
{
    let mut i: usize = 0;
    while i < to
        invariant
            i <= to <= line@.len(),
            forall|k: int|
                0 <= k < i ==> is_name_char(#[trigger] line@[k]) || line@[k] == ';' || line@[k]
                    == '=',
        decreases to - i,
    {
        if !(has_name_char(line[i]) || line[i] == ';' || line[i] == '=') {
            assert(!(is_name_char(line@[i as int]) || line@[i as int] == ';' || line@[i as int]
                == '='));
            return false;
        }
        i = i + 1;
    }
    true
}

/// What a reader takes a line for.
#[derive(Clone, Copy, Debug, PartialEq, Eq, Structural)]
enum LineKind {
    Opening,
    Closing,
    Other,
    Irregular,
}

/// What a reader takes a line for.
spec fn kind_of(line: Seq<char>) -> LineKind {
    if !is_regular(line) {
        LineKind::Irregular
    } else if opens(line) {
        LineKind::Opening
    } else if closes(line) {
        LineKind::Closing
    } else {
        LineKind::Other
    }
}

/// Tells what a reader takes a line for.
fn read_kind(text: &str) -> (r: LineKind)
    ensures
        r == kind_of(text@),
{
    let line: Vec<char> = chars_of(text);
    if line.len() == 0 {
        return LineKind::Other;
    }
    let at: usize = find_colon(&line);
    if at == line.len() {
        return LineKind::Irregular;
    }
    let head: String = text_of(&line, 0, at);
    assert(head@ =~= line@.take(at as int));
    let word: String = to_ascii_lowercase(head.as_str());
    let begin: bool = same_text(word.as_str(), "begin");
    let end: bool = same_text(word.as_str(), "end");
    proof {
        reveal_strlit("begin");
        reveal_strlit("end");
        assert("begin"@.len() != "end"@.len());
    }
    if begin || end {
        if !check_name(&line, at + 1) {
            LineKind::Irregular
        } else if begin {
            LineKind::Opening
        } else {
            LineKind::Closing
        }
    } else if at > 0 && has_name_char(line[0]) && check_head(&line, at) {
        LineKind::Other
    } else {
        LineKind::Irregular
    }
}

/// Counts how often a line has the word that opens a component.
fn count_begins(text: &str) -> (r: usize)
    ensures
        r == begins_in(ascii_lowercase(text@)),
        r <= text@.len(),
{
    let lower: Vec<char> = chars_of(to_ascii_lowercase(text).as_str());
    let total: usize = lower.len();
    let mut count: usize = 0;
    let mut i: usize = 0;
    assert(lower@.skip(0) =~= lower@);
    proof {
        reveal_strlit("begin:");
    }
    while i < total
        invariant
            total == lower@.len(),
            i <= total,
            count <= i,
            "begin:"@ == seq!['b', 'e', 'g', 'i', 'n', ':'],
            begins_in(lower@) == count + begins_in(lower@.skip(i as int)),
        decreases total - i,
    {
        let ghost rest = lower@.skip(i as int);
        assert(rest.skip(1) =~= lower@.skip(i + 1));
        if total - i >= 6 && lower[i] == 'b' && lower[i + 1] == 'e' && lower[i + 2] == 'g'
            && lower[i + 3] == 'i' && lower[i + 4] == 'n' && lower[i + 5] == ':' {
            assert(rest.subrange(0, 6) =~= "begin:"@);
            assert(stands_at(rest, "begin:"@, 0));
            count = count + 1;
        } else {
            assert(!stands_at(rest, "begin:"@, 0)) by {
                if stands_at(rest, "begin:"@, 0) {
                    let part = rest.subrange(0, 6);
                    assert(part[0] == 'b' && part[1] == 'e' && part[2] == 'g' && part[3] == 'i'
                        && part[4] == 'n' && part[5] == ':');
                }
            }
        }
        i = i + 1;
    }
    count
}

/// Tells whether lines from a place on have the word that opens a component at most so often.
fn check_begins(lines: &Vec<String>, from: usize, most: usize) -> (r: bool)
    requires
        from <= lines@.len(),
    ensures
        r == (begins_of(views(lines@).skip(from as int)) <= most),
{
    let ghost all = views(lines@);
    let mut left: usize = most;
    let mut i: usize = from;
    while i < lines.len()
        invariant
            all == views(lines@),
            from <= i <= lines@.len(),
            left <= most,
            begins_of(all.skip(from as int)) == most - left + begins_of(all.skip(i as int)),
        decreases lines@.len() - i,
    {
        assert(all.skip(i as int)[0] == lines@[i as int]@);
        assert(all.skip(i as int).skip(1) =~= all.skip(i + 1));
        let count: usize = count_begins(lines[i].as_str());
        if count > left {
            return false;
        }
        left = left - count;
        i = i + 1;
    }
    true
}

/// Tells whether no more than `MAX_DEPTH` components can be open at a time.
fn check_depth(lines: &Vec<String>) -> (r: bool)
    ensures
        r == nests_within(views(lines@), 0),
{
    let ghost all = views(lines@);
    let total: usize = lines.len();
    let mut depth: usize = 0;
    let mut i: usize = 0;
    assert(all.skip(0) =~= all);
    while i < total && total - i > 1
        invariant
            all == views(lines@),
            total == lines@.len(),
            i <= total,
            depth <= MAX_DEPTH,
            nests_within(all, 0) == nests_within(all.skip(i as int), depth as nat),
        decreases total - i,
    {
        assert(all.skip(i as int)[0] == lines@[i as int]@);
        assert(all.skip(i as int).skip(1) =~= all.skip(i + 1));
        match read_kind(lines[i].as_str()) {
            LineKind::Irregular => return check_begins(lines, i, MAX_DEPTH - depth),
            LineKind::Opening => {
                if depth == MAX_DEPTH {
                    return false;
                }
                depth = depth + 1;
            },
            LineKind::Closing => {
                if depth > 0 {
                    depth = depth - 1;
                }
            },
            LineKind::Other => {},
        }
        i = i + 1;
    }
    check_begins(lines, i, MAX_DEPTH - depth)
}

/// Tells whether lines from a place on are short enough.
fn check_lengths(lines: &Vec<String>, from: usize) -> (r: bool)
    requires
        from <= lines@.len(),
    ensures
        r == are_short(views(lines@).skip(from as int)),
{
    let ghost rest = views(lines@).skip(from as int);
    let mut i: usize = from;
    while i < lines.len()
        invariant
            rest == views(lines@).skip(from as int),
            from <= i <= lines@.len(),
            forall|k: int|
                0 <= k < i - from ==> encode_utf8(#[trigger] rest[k]).len() <= MAX_UNFOLDED_BYTES,
        decreases lines@.len() - i,
    {
        assert(rest[i - from] == lines@[i as int]@);
        if lines[i].as_str().as_bytes().len() > MAX_UNFOLDED_BYTES {
            return false;
        }
        i = i + 1;
    }
    true
}

/// Tells whether a failure in lines has a column that can be pointed at.
fn check_columns(lines: &Vec<String>) -> (r: bool)
    ensures
        r == points_within(views(lines@)),
{
    let ghost all = views(lines@);
    let total: usize = lines.len();
    let mut i: usize = 0;
    assert(all.skip(0) =~= all);
    while i < total && total - i > 1
        invariant
            all == views(lines@),
            total == lines@.len(),
            i <= total,
            points_within(all) == points_within(all.skip(i as int)),
        decreases total - i,
    {
        assert(all.skip(i as int)[0] == lines@[i as int]@);
        assert(all.skip(i as int).skip(1) =~= all.skip(i + 1));
        let line: Vec<char> = chars_of(lines[i].as_str());
        let reach: usize = match read_kind(lines[i].as_str()) {
            LineKind::Irregular => return check_lengths(lines, i),
            LineKind::Opening | LineKind::Closing => line.len(),
            LineKind::Other => find_colon(&line),
        };
        if reach > MAX_UNFOLDED_BYTES {
            return false;
        }
        i = i + 1;
    }
    check_lengths(lines, i)
}

/// Tells whether a text can be handed to a reader.
pub fn can_read(text: &str) -> (r: bool)
    ensures
        r == can_be_read(text@),
{
    let chars: Vec<char> = chars_of(text);
    let plain: Vec<char> = unfold(&chars);
    let lines: Vec<String> = split_lines(&plain);
    check_columns(&lines) && check_depth(&lines)
}

/// A fold is a line end, with a carriage return or without, and a blank or a tab behind it. Taking
/// it out leaves what stands around it; all else stays.
pub proof fn law_unfolded(before: Seq<char>, after: Seq<char>, mark: char)
    requires
        !before.contains('\n'),
        !before.contains('\r'),
        mark == ' ' || mark == '\t',
    ensures
        unfolded(before) == before,
        unfolded(before + seq!['\r', '\n', mark] + after) == before + unfolded(after),
        unfolded(before + seq!['\n', mark] + after) == before + unfolded(after),
    decreases before.len(),
{
    let long = before + seq!['\r', '\n', mark] + after;
    let short = before + seq!['\n', mark] + after;
    if before.len() == 0 {
        assert(long[0] == '\r' && long[1] == '\n' && long[2] == mark);
        assert(long.skip(3) =~= after);
        assert(short[0] == '\n' && short[1] == mark);
        assert(short.skip(2) =~= after);
        assert(before + unfolded(after) =~= unfolded(after));
    } else {
        let rest = before.skip(1);
        assert(before.contains(before[0]));
        assert forall|c: char| rest.contains(c) implies before.contains(c) by {
            let k = choose|k: int| 0 <= k < rest.len() && rest[k] == c;
            assert(before[k + 1] == c);
        }
        law_unfolded(rest, after, mark);
        assert(long[0] == before[0] && short[0] == before[0]);
        assert(long.skip(1) =~= rest + seq!['\r', '\n', mark] + after);
        assert(short.skip(1) =~= rest + seq!['\n', mark] + after);
        assert(seq![before[0]] + rest =~= before);
        assert(seq![before[0]] + (rest + unfolded(after)) =~= before + unfolded(after));
    }
}

/// A line goes up to a line end, and the rest has its own lines.
pub proof fn law_lines(line: Seq<char>, rest: Seq<char>, start: Seq<char>)
    requires
        !line.contains('\n'),
    ensures
        lines_from(line + seq!['\r', '\n'] + rest, start) == seq![start + line] + lines_from(
            rest,
            seq![],
        ),
        lines_from(line, start) == seq![start + line],
    decreases line.len(),
{
    let all = line + seq!['\r', '\n'] + rest;
    if line.len() == 0 {
        assert(all[0] == '\r' && all[1] == '\n');
        assert(all.skip(2) =~= rest);
        assert(start + line =~= start);
    } else {
        let more = line.skip(1);
        assert forall|c: char| more.contains(c) implies line.contains(c) by {
            let k = choose|k: int| 0 <= k < more.len() && more[k] == c;
            assert(line[k + 1] == c);
        }
        law_lines(more, rest, start.push(line[0]));
        assert(all[0] == line[0]);
        assert(all.skip(1) =~= more + seq!['\r', '\n'] + rest);
        assert(line.len() > 1 ==> line.contains(line[1]));
        assert(all[1] != '\n');
        assert(start.push(line[0]) + more =~= start + line);
    }
}

/// Components one after the other, each closed before the next, are read however many there are:
/// lines that are properties or come in pairs of marks with properties between them leave the
/// depth as it was.
pub proof fn law_closed_component_leaves_depth(
    name: Seq<char>,
    properties: Seq<Seq<char>>,
    rest: Seq<Seq<char>>,
    depth: nat,
)
    requires
        is_name(name),
        rest.len() > 0,
        depth < 64,
        forall|i: int| 0 <= i < properties.len() ==> is_property(#[trigger] properties[i]),
    ensures
        nests_within(
            seq!["BEGIN:"@ + name] + properties + seq!["END:"@ + name] + rest,
            depth,
        ) == nests_within(rest, depth),
{
    let open = "BEGIN:"@ + name;
    let close = "END:"@ + name;
    lemma_marks(name);
    let tail = properties + seq![close] + rest;
    let all = seq![open] + properties + seq![close] + rest;
    assert(all[0] == open);
    assert(all.skip(1) =~= tail);
    lemma_properties_leave_depth(properties, seq![close] + rest, depth + 1);
    assert(tail =~= properties + (seq![close] + rest));
    let end = seq![close] + rest;
    assert(end[0] == close);
    assert(end.skip(1) =~= rest);
}

/// Properties leave the depth as it is.
proof fn lemma_properties_leave_depth(
    properties: Seq<Seq<char>>,
    rest: Seq<Seq<char>>,
    depth: nat,
)
    requires
        rest.len() > 0,
        depth <= 64,
        forall|i: int| 0 <= i < properties.len() ==> is_property(#[trigger] properties[i]),
    ensures
        nests_within(properties + rest, depth) == nests_within(rest, depth),
    decreases properties.len(),
{
    let all = properties + rest;
    if properties.len() == 0 {
        assert(all =~= rest);
    } else {
        let more = properties.skip(1);
        assert forall|i: int| 0 <= i < more.len() implies is_property(#[trigger] more[i]) by {
            assert(more[i] == properties[i + 1]);
        }
        lemma_properties_leave_depth(more, rest, depth);
        assert(all[0] == properties[0]);
        assert(all.skip(1) =~= more + rest);
    }
}

/// Marks with names open and close.
proof fn lemma_marks(name: Seq<char>)
    requires
        is_name(name),
    ensures
        opens("BEGIN:"@ + name),
        closes("END:"@ + name),
        !opens("END:"@ + name),
        !closes("BEGIN:"@ + name),
{
    reveal_strlit("BEGIN:");
    reveal_strlit("END:");
    reveal_strlit("begin");
    reveal_strlit("end");
    let open = "BEGIN:"@ + name;
    let close = "END:"@ + name;
    reveal_with_fuel(colon_of, 7);
    assert(open.skip(1).skip(1).skip(1).skip(1).skip(1)[0] == ':');
    assert(colon_of(open) == 5);
    assert(close.skip(1).skip(1).skip(1)[0] == ':');
    assert(colon_of(close) == 3);
    assert(ascii_lowercase(open.take(5)) =~= "begin"@);
    assert(ascii_lowercase(close.take(3)) =~= "end"@);
    assert(open.skip(6) =~= name);
    assert(close.skip(4) =~= name);
    assert("begin"@.len() != "end"@.len());
}

/// Properties with names of at most 65,534 bytes are no hindrance, however long their values are.
pub proof fn law_long_values_are_read(properties: Seq<Seq<char>>, rest: Seq<Seq<char>>)
    requires
        rest.len() > 0,
        forall|i: int|
            0 <= i < properties.len() ==> is_property(#[trigger] properties[i]) && colon_of(
                properties[i],
            ) <= 65_534,
    ensures
        points_within(properties + rest) == points_within(rest),
    decreases properties.len(),
{
    let all = properties + rest;
    if properties.len() == 0 {
        assert(all =~= rest);
    } else {
        let more = properties.skip(1);
        assert forall|i: int| 0 <= i < more.len() implies is_property(#[trigger] more[i])
            && colon_of(more[i]) <= 65_534 by {
            assert(more[i] == properties[i + 1]);
        }
        law_long_values_are_read(more, rest);
        assert(all[0] == properties[0]);
        assert(all.skip(1) =~= more + rest);
    }
}

/// Whether a text can be handed to a reader depends on its lines alone, once it is unfolded.
pub proof fn law_lines_decide_reading(text: Seq<char>, other: Seq<char>)
    requires
        lines_of(unfolded(text)) == lines_of(unfolded(other)),
    ensures
        can_be_read(text) == can_be_read(other),
{
}

/// A text of short lines in which the word that opens a component stands at most 64 times can be
/// handed to a reader, whatever else it holds.
pub proof fn law_modest_text_can_be_read(text: Seq<char>)
    requires
        forall|i: int|
            0 <= i < lines_of(unfolded(text)).len() ==> encode_utf8(
                #[trigger] lines_of(unfolded(text))[i],
            ).len() <= 65_534,
        begins_of(lines_of(unfolded(text))) <= 64,
    ensures
        can_be_read(text),
{
    let lines = lines_of(unfolded(text));
    lemma_modest_lines(lines, 0);
}

/// Marks have the word that they are made of, and what stands before a colon is no longer than its
/// line.
proof fn lemma_regular_line(line: Seq<char>)
    requires
        is_regular(line),
    ensures
        opens(line) ==> begins_in(ascii_lowercase(line)) >= 1,
        0 <= reach_of(line) <= line.len(),
        line.len() <= encode_utf8(line).len(),
{
    lemma_colon_within(line);
    lemma_bytes_of(line);
    if opens(line) {
        reveal_strlit("begin");
        reveal_strlit("begin:");
        let at = colon_of(line);
        let lower = ascii_lowercase(line);
        let word = ascii_lowercase(line.take(at));
        assert(word.len() == at);
        assert(at == 5);
        assert(word =~= lower.take(5));
        assert(lower[0] == word[0] && lower[1] == word[1] && lower[2] == word[2] && lower[3]
            == word[3] && lower[4] == word[4]);
        assert(lower[5] == ':');
        assert(lower.subrange(0, 6) =~= "begin:"@);
        assert(stands_at(lower, "begin:"@, 0));
    }
}

/// The first colon of a line stands in it, or there is none.
proof fn lemma_colon_within(line: Seq<char>)
    ensures
        0 <= colon_of(line) <= line.len(),
        colon_of(line) < line.len() ==> line[colon_of(line)] == ':',
    decreases line.len(),
{
    if line.len() > 0 && line[0] != ':' {
        lemma_colon_within(line.skip(1));
    }
}

/// A text has at least as many bytes as characters.
proof fn lemma_bytes_of(text: Seq<char>)
    ensures
        text.len() <= encode_utf8(text).len(),
    decreases text.len(),
{
    if text.len() > 0 {
        lemma_bytes_of(text.drop_first());
    }
}

/// Modest lines can be read at a modest depth.
proof fn lemma_modest_lines(lines: Seq<Seq<char>>, depth: nat)
    requires
        forall|i: int| 0 <= i < lines.len() ==> encode_utf8(#[trigger] lines[i]).len() <= 65_534,
        depth + begins_of(lines) <= 64,
    ensures
        nests_within(lines, depth),
        points_within(lines),
    decreases lines.len(),
{
    if lines.len() > 1 && is_regular(lines[0]) {
        let rest = lines.skip(1);
        assert forall|i: int| 0 <= i < rest.len() implies encode_utf8(#[trigger] rest[i]).len()
            <= 65_534 by {
            assert(rest[i] == lines[i + 1]);
        }
        lemma_regular_line(lines[0]);
        assert(encode_utf8(lines[0]).len() <= 65_534);
        let after: nat = if opens(lines[0]) {
            depth + 1
        } else if closes(lines[0]) && depth > 0 {
            (depth - 1) as nat
        } else {
            depth
        };
        lemma_modest_lines(rest, after);
    }
}

/// The word that opens a component is counted wherever it stands, in letters of either case.
pub proof fn law_begins_are_counted(c: char, lower: Seq<char>)
    ensures
        begins_in(seq![]) == 0,
        begins_in(seq![c] + lower) == begins_in(lower) + if stands_at(
            seq![c] + lower,
            "begin:"@,
            0,
        ) {
            1nat
        } else {
            0nat
        },
{
    assert((seq![c] + lower).skip(1) =~= lower);
}

} // verus!
