//! How long lines of a calendar are folded, and which lines that works for.

use vstd::prelude::*;
use vstd::string::*;
use vstd::utf8::{
    encode_utf8, encode_utf8_valid_utf8, is_ascii_chars, is_ascii_chars_encode_utf8,
    is_char_boundary, is_char_boundary_iff_not_is_continuation_byte, is_continuation_byte,
    length_of_first_scalar, pop_first_scalar, valid_utf8,
};

use crate::text::{chars_of, is_space};

verus! {

/// The most bytes that a line may have without being folded.
pub const FOLD_LIMIT: usize = 75;

/// The place before a place where the character with its number is white space, else the place
/// itself. Places count bytes and characters are counted one by one, so in a line that is not all
/// ASCII the two need not meet.
pub open spec fn past_space(line: Seq<char>, at: int) -> int {
    if 0 <= at < line.len() && is_space(line[at]) {
        at - 1
    } else {
        at
    }
}

/// Where a walk back from a place ends: at the first place between two characters, or at or before
/// the start of the line. Each step goes back one place, and one more for white space.
pub open spec fn walk_back(line: Seq<char>, at: int) -> int
    decreases at + 1,
{
    if at <= 0 || is_char_boundary(encode_utf8(line), at) {
        at
    } else {
        walk_back(line, past_space(line, at - 1))
    }
}

/// Where a line is cut that should be cut at a place.
pub open spec fn cut_of(line: Seq<char>, place: int) -> int {
    walk_back(line, past_space(line, place))
}

/// How many bytes of a line are left from a place on.
pub open spec fn left_of(line: Seq<char>, from: int) -> nat {
    if from < encode_utf8(line).len() {
        (encode_utf8(line).len() - from) as nat
    } else {
        0
    }
}

/// Whether folding comes to an end on what is left of a line from a place on, where the piece at
/// hand has room for so many bytes. A cut that stays where the piece starts leads on only from the
/// first piece, which has more room than the others.
pub open spec fn folds_from(line: Seq<char>, from: int, room: int) -> bool
    decreases left_of(line, from), room,
{
    let cut = cut_of(line, from + room);
    ||| left_of(line, from) <= FOLD_LIMIT
    ||| {
        &&& from < cut || from == cut && room >= FOLD_LIMIT
        &&& folds_from(line, cut, FOLD_LIMIT - 1)
    }
}

/// Whether a line can be folded.
pub open spec fn folds(line: Seq<char>) -> bool {
    folds_from(line, 0, FOLD_LIMIT as int)
}

/// Finds where a line is cut, if not before its start.
fn find_cut(line: &str, chars: &Vec<char>, place: usize) -> (r: Option<usize>)
    requires
        chars@ == line@,
        place > 0,
    ensures
        match r {
            Some(cut) => cut == cut_of(line@, place as int),
            None => cut_of(line@, place as int) < 0,
        },
        r matches Some(cut) ==> cut <= place,
{
    let mut at: usize = place;
    if at < chars.len() && chars[at].is_whitespace() {
        at = at - 1;
    }
    while at > 0 && !line.is_char_boundary(at)
        invariant
            chars@ == line@,
            at <= place,
            cut_of(line@, place as int) == walk_back(line@, at as int),
        decreases at,
    {
        at = at - 1;
        if at < chars.len() && chars[at].is_whitespace() {
            if at == 0 {
                assert(walk_back(line@, past_space(line@, 0)) < 0);
                return None;
            }
            at = at - 1;
        }
    }
    Some(at)
}

/// Tells whether a line can be folded.
pub fn can_fold(line: &str) -> (r: bool)
    ensures
        r == folds(line@),
{
    let chars: Vec<char> = chars_of(line);
    let total: usize = line.as_bytes().len();
    let mut from: usize = 0;
    let mut room: usize = FOLD_LIMIT;
    while total - from > FOLD_LIMIT
        invariant
            chars@ == line@,
            total == encode_utf8(line@).len(),
            from <= total,
            FOLD_LIMIT - 1 <= room <= FOLD_LIMIT,
            folds(line@) == folds_from(line@, from as int, room as int),
        decreases total - from, room,
    {
        match find_cut(line, &chars, from + room) {
            None => return false,
            Some(cut) => {
                if cut < from || cut == from && room < FOLD_LIMIT {
                    return false;
                }
                from = cut;
                room = FOLD_LIMIT - 1;
            },
        }
    }
    true
}

/// A line of ASCII can be folded from any place on.
proof fn lemma_ascii_folds_from(line: Seq<char>, from: int, room: int)
    requires
        is_ascii_chars(line),
        0 <= from <= line.len(),
        FOLD_LIMIT - 1 <= room <= FOLD_LIMIT,
    ensures
        folds_from(line, from, room),
    decreases line.len() - from,
{
    is_ascii_chars_encode_utf8(line);
    encode_utf8_valid_utf8(line);
    let bytes = encode_utf8(line);
    if bytes.len() - from > FOLD_LIMIT {
        let at = past_space(line, from + room);
        assert(line[at] as u8 == bytes[at]);
        assert(!is_continuation_byte(bytes[at]));
        is_char_boundary_iff_not_is_continuation_byte(bytes, at);
        assert(cut_of(line, from + room) == at);
        lemma_ascii_folds_from(line, at, FOLD_LIMIT - 1);
    }
}

/// A line of ASCII can be folded.
pub proof fn lemma_ascii_folds(line: Seq<char>)
    requires
        is_ascii_chars(line),
    ensures
        folds(line),
{
    lemma_ascii_folds_from(line, 0, FOLD_LIMIT as int);
}

/// A line of at most 75 bytes can be folded: it stays whole.
pub proof fn law_short_line_folds(line: Seq<char>)
    requires
        encode_utf8(line).len() <= 75,
    ensures
        folds(line),
{
}

/// Without white space a walk back ends at the next place between two characters, at most three
/// bytes back.
proof fn lemma_walk_without_space(line: Seq<char>, at: int, start: int)
    requires
        forall|i: int| 0 <= i < line.len() ==> !is_space(#[trigger] line[i]),
        0 <= start <= at < encode_utf8(line).len(),
        is_char_boundary(encode_utf8(line), start),
    ensures
        start <= walk_back(line, at) <= at,
        is_char_boundary(encode_utf8(line), walk_back(line, at)),
    decreases at,
{
    encode_utf8_valid_utf8(line);
    if at > 0 && !is_char_boundary(encode_utf8(line), at) {
        lemma_walk_without_space(line, at - 1, start);
    }
}

/// No place is further than three bytes behind one between two characters.
proof fn lemma_boundary_near(bytes: Seq<u8>, at: int)
    requires
        valid_utf8(bytes),
        0 <= at <= bytes.len(),
    ensures
        exists|start: int|
            0 <= start <= at && at - 3 <= start && #[trigger] is_char_boundary(bytes, start),
    decreases bytes.len(),
{
    if at == 0 || at < length_of_first_scalar(bytes) {
        assert(is_char_boundary(bytes, 0));
    } else {
        let first = length_of_first_scalar(bytes);
        let rest = pop_first_scalar(bytes);
        lemma_boundary_near(rest, at - first);
        let start = choose|start: int|
            0 <= start <= at - first && at - first - 3 <= start && #[trigger] is_char_boundary(
                rest,
                start,
            );
        assert(is_char_boundary(bytes, start + first));
    }
}

/// A line without white space can be folded from any place on.
proof fn lemma_solid_folds_from(line: Seq<char>, from: int, room: int)
    requires
        forall|i: int| 0 <= i < line.len() ==> !is_space(#[trigger] line[i]),
        0 <= from <= encode_utf8(line).len(),
        FOLD_LIMIT - 1 <= room <= FOLD_LIMIT,
    ensures
        folds_from(line, from, room),
    decreases encode_utf8(line).len() - from,
{
    let bytes = encode_utf8(line);
    if left_of(line, from) > FOLD_LIMIT {
        encode_utf8_valid_utf8(line);
        let at = from + room;
        lemma_boundary_near(bytes, at);
        let start = choose|start: int|
            0 <= start <= at && at - 3 <= start && #[trigger] is_char_boundary(bytes, start);
        lemma_walk_without_space(line, at, start);
        lemma_solid_folds_from(line, cut_of(line, at), FOLD_LIMIT - 1);
    }
}

/// A line without white space can be folded, whatever its characters are.
pub proof fn law_solid_line_folds(line: Seq<char>)
    requires
        forall|i: int| 0 <= i < line.len() ==> !is_space(#[trigger] line[i]),
    ensures
        folds(line),
{
    lemma_solid_folds_from(line, 0, FOLD_LIMIT as int);
}

/// A line of ASCII can be folded, whatever white space it has.
pub proof fn law_ascii_line_folds(line: Seq<char>)
    requires
        forall|i: int| 0 <= i < line.len() ==> '\0' <= #[trigger] line[i] <= '\u{7f}',
    ensures
        folds(line),
{
    lemma_ascii_folds(line);
}

} // verus!
