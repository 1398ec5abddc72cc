//! Character level text operations.

use vstd::prelude::*;
use vstd::string::*;

verus! {

/// `String::push` appends one character to the end of the string.
pub assume_specification[ String::push ](s: &mut String, c: char)
    ensures
        final(s)@ == old(s)@.push(c),
;

/// `char::is_whitespace` tells whether a character has the Unicode `White_Space` property.
pub assume_specification[ char::is_whitespace ](c: char) -> (r: bool)
    ensures
        r == is_space(c),
;

/// What `str::to_lowercase` gives for a text.
pub uninterp spec fn unicode_lowercase(text: Seq<char>) -> Seq<char>;

/// Calls `str::to_lowercase`, the Unicode lower case mapping of a whole text. Nothing is said of
/// the mapping itself, only that it depends on the text alone.
#[verifier::external_body]
pub(crate) fn to_lowercase(text: &str) -> (r: String)
    ensures
        r@ == unicode_lowercase(text@),
{
    text.to_lowercase()
}

/// The characters with the Unicode `White_Space` property.
pub open spec fn is_space(c: char) -> bool {
    ||| '\u{9}' <= c <= '\u{d}'
    ||| c == '\u{20}'
    ||| c == '\u{85}'
    ||| c == '\u{a0}'
    ||| c == '\u{1680}'
    ||| '\u{2000}' <= c <= '\u{200a}'
    ||| c == '\u{2028}'
    ||| c == '\u{2029}'
    ||| c == '\u{202f}'
    ||| c == '\u{205f}'
    ||| c == '\u{3000}'
}

/// The views of the items of a sequence.
pub open spec fn views<T: View>(items: Seq<T>) -> Seq<T::V> {
    items.map_values(|item: T| item@)
}

/// The view of what an option holds.
pub open spec fn opt_view<T: View>(value: Option<T>) -> Option<T::V> {
    match value {
        Some(inner) => Some(inner@),
        None => None,
    }
}

/// The characters of a text, one by one.
pub fn chars_of(text: &str) -> (r: Vec<char>)
    ensures
        r@ == text@,
{
    let mut out: Vec<char> = Vec::new();
    for c in it: text.chars()
        invariant
            it.seq() == text@,
            out@ == text@.take(it.index()),
    {
        out.push(c);
    }
    out
}

/// The text made of the characters from position `from` up to position `to`.
pub fn text_of(chars: &Vec<char>, from: usize, to: usize) -> (r: String)
    requires
        from <= to <= chars@.len(),
    ensures
        r@ == chars@.subrange(from as int, to as int),
{
    let mut out: String = String::new();
    let mut i: usize = from;
    while i < to
        invariant
            from <= i <= to <= chars@.len(),
            out@ == chars@.subrange(from as int, i as int),
        decreases to - i,
    {
        out.push(chars[i]);
        i = i + 1;
    }
    out
}

/// Whether two texts hold the same characters.
pub fn same_text(a: &str, b: &str) -> (r: bool)
    ensures
        r == (a@ == b@),
{
    let left: Vec<char> = chars_of(a);
    let right: Vec<char> = chars_of(b);
    if left.len() != right.len() {
        return false;
    }
    let mut i: usize = 0;
    while i < left.len()
        invariant
            i <= left@.len() == right@.len(),
            left@ == a@,
            right@ == b@,
            a@.take(i as int) =~= b@.take(i as int),
        decreases left@.len() - i,
    {
        if left[i] != right[i] {
            assert(a@[i as int] != b@[i as int]);
            return false;
        }
        assert(a@.take(i + 1) =~= a@.take(i as int).push(a@[i as int]));
        assert(b@.take(i + 1) =~= b@.take(i as int).push(b@[i as int]));
        i = i + 1;
    }
    assert(a@.take(i as int) =~= a@);
    assert(b@.take(i as int) =~= b@);
    true
}

/// The two texts one after the other.
pub fn concat(a: &str, b: &str) -> (r: String)
    ensures
        r@ == a@ + b@,
{
    let mut out: String = a.to_owned();
    out.append(b);
    out
}

/// The three texts one after the other.
pub fn concat3(a: &str, b: &str, c: &str) -> (r: String)
    ensures
        r@ == a@ + b@ + c@,
{
    let mut out: String = a.to_owned();
    out.append(b);
    out.append(c);
    out
}

/// The parts one after the other, with the separator between neighbours.
pub open spec fn joined(parts: Seq<Seq<char>>, separator: Seq<char>) -> Seq<char>
    decreases parts.len(),
{
    if parts.len() == 0 {
        seq![]
    } else if parts.len() == 1 {
        parts[0]
    } else {
        joined(parts.drop_last(), separator) + separator + parts.last()
    }
}

/// Joins texts as `joined` says.
pub fn join(parts: &Vec<String>, separator: &str) -> (r: String)
    ensures
        r@ == joined(views(parts@), separator@),
{
    let mut out: String = String::new();
    let mut i: usize = 0;
    while i < parts.len()
        invariant
            i <= parts@.len(),
            out@ == joined(views(parts@).take(i as int), separator@),
        decreases parts@.len() - i,
    {
        let ghost next = views(parts@).take(i + 1);
        assert(next.drop_last() =~= views(parts@).take(i as int));
        if i > 0 {
            out.append(separator);
        }
        out.append(parts[i].as_str());
        i = i + 1;
        assert(out@ =~= joined(next, separator@));
    }
    assert(views(parts@).take(i as int) =~= views(parts@));
    out
}

/// The text with its white space reduced: none at the ends, one blank between words.
pub open spec fn normalized(text: Seq<char>) -> Seq<char>
    decreases text.len(),
{
    if text.len() == 0 {
        seq![]
    } else {
        let before = normalized(text.drop_last());
        if is_space(text.last()) {
            before
        } else if before.len() > 0 && is_space(text[text.len() - 2]) {
            before.push(' ').push(text.last())
        } else {
            before.push(text.last())
        }
    }
}

/// Reduces white space as `normalized` says.
pub fn normalize(text: &str) -> (r: String)
    ensures
        r@ == normalized(text@),
{
    let mut out: String = String::new();
    let mut gap: bool = false;
    for c in it: text.chars()
        invariant
            it.seq() == text@,
            out@ == normalized(text@.take(it.index())),
            gap == (it.index() > 0 && is_space(text@[it.index() - 1])),
    {
        let ghost done = text@.take(it.index() + 1);
        assert(done.drop_last() =~= text@.take(it.index()));
        if c.is_whitespace() {
            gap = true;
        } else {
            if gap && !out.as_str().is_empty() {
                out.push(' ');
            }
            out.push(c);
            gap = false;
        }
    }
    assert(text@.take(text@.len() as int) =~= text@);
    out
}

/// Whether the white space of a text is reduced: it starts and ends with none, and between words
/// there is one blank.
pub open spec fn is_reduced(text: Seq<char>) -> bool {
    forall|i: int|
        0 <= i < text.len() && is_space(#[trigger] text[i]) ==> text[i] == ' ' && 0 < i < text.len()
            - 1 && !is_space(text[i + 1])
}

/// A text whose white space is reduced stays as it is, but for a blank at its end.
proof fn lemma_reduced_start(text: Seq<char>)
    requires
        forall|i: int|
            0 <= i < text.len() && is_space(#[trigger] text[i]) ==> text[i] == ' ' && 0 < i && (i
                < text.len() - 1 ==> !is_space(text[i + 1])),
    ensures
        normalized(text) == if text.len() > 0 && is_space(text.last()) {
            text.drop_last()
        } else {
            text
        },
    decreases text.len(),
{
    if text.len() > 0 {
        let before = text.drop_last();
        assert(forall|i: int| 0 <= i < before.len() ==> before[i] == #[trigger] text[i]);
        lemma_reduced_start(before);
        if is_space(text.last()) {
            assert(text.len() > 1);
            assert(!is_space(before.last())) by {
                if is_space(text[text.len() - 2]) {
                    assert(!is_space(text[text.len() - 2 + 1]));
                }
            }
        } else if before.len() > 0 && is_space(before.last()) {
            assert(text[text.len() - 2] == ' ');
            assert(before.drop_last().push(' ').push(text.last()) =~= text);
        } else {
            assert(before.push(text.last()) =~= text);
        }
    }
}

/// The words of a text, in order: what stands between white space.
pub open spec fn words_of(text: Seq<char>) -> Seq<Seq<char>>
    decreases text.len(),
{
    if text.len() == 0 {
        seq![]
    } else {
        let before = words_of(text.drop_last());
        if is_space(text.last()) {
            before
        } else if text.len() > 1 && !is_space(text[text.len() - 2]) {
            before.drop_last().push(before.last().push(text.last()))
        } else {
            before.push(seq![text.last()])
        }
    }
}

/// Normalising keeps the last character where it is not white space, and the words.
proof fn lemma_normalized_words(text: Seq<char>)
    ensures
        normalized(text) == joined(words_of(text), " "@),
        words_of(normalized(text)) == words_of(text),
        normalized(text).len() == 0 <==> words_of(text).len() == 0,
        text.len() > 0 && !is_space(text.last()) ==> normalized(text).len() > 0 && normalized(
            text,
        ).last() == text.last() && words_of(text).len() > 0,
        normalized(text).len() > 0 ==> !is_space(normalized(text).last()),
    decreases text.len(),
{
    reveal_strlit(" ");
    if text.len() > 0 {
        let front = text.drop_last();
        lemma_normalized_words(front);
        let before = words_of(front);
        let reduced = normalized(front);
        let c = text.last();
        if !is_space(c) {
            if text.len() > 1 && !is_space(text[text.len() - 2]) {
                assert(front.last() == text[text.len() - 2]);
                let grown = before.drop_last().push(before.last().push(c));
                assert(grown.drop_last() =~= before.drop_last());
                assert(joined(grown, " "@) =~= joined(before, " "@).push(c));
                assert(reduced.push(c).drop_last() =~= reduced);
                assert(reduced.push(c)[reduced.len() - 1] == reduced.last());
            } else {
                let grown = before.push(seq![c]);
                assert(grown.drop_last() =~= before);
                if reduced.len() > 0 {
                    let spaced = reduced.push(' ');
                    assert(joined(grown, " "@) =~= spaced.push(c));
                    assert(spaced.drop_last() =~= reduced);
                    assert(spaced.push(c).drop_last() =~= spaced);
                    assert(spaced.push(c)[spaced.len() - 1] == ' ');
                    assert(words_of(spaced) == words_of(reduced));
                } else {
                    assert(joined(grown, " "@) =~= seq![c]);
                    assert(reduced.push(c) =~= seq![c]);
                    assert(seq![c].drop_last() =~= seq![]);
                    assert(words_of(seq![c]) =~= grown);
                }
            }
        }
    }
}

/// Normalising reduces the white space of any text: what is left are its words in order, with one
/// blank between neighbours. It does nothing to a text whose white space is reduced, so doing it
/// again changes nothing.
pub proof fn law_normalized(text: Seq<char>)
    ensures
        is_reduced(normalized(text)),
        normalized(text) == joined(words_of(text), " "@),
        words_of(normalized(text)) == words_of(text),
        is_reduced(text) ==> normalized(text) == text,
        normalized(normalized(text)) == normalized(text),
{
    lemma_normalized_words(text);
    lemma_normalized_reduced(text);
    lemma_reduced_start(normalized(text));
    if is_reduced(text) {
        lemma_reduced_start(text);
    }
}

/// The white space of a normalised text is reduced.
proof fn lemma_normalized_reduced(text: Seq<char>)
    ensures
        is_reduced(normalized(text)),
    decreases text.len(),
{
    if text.len() > 0 {
        lemma_normalized_reduced(text.drop_last());
        let before = normalized(text.drop_last());
        let all = normalized(text);
        if !is_space(text.last()) {
            assert forall|i: int| 0 <= i < all.len() && is_space(#[trigger] all[i]) implies all[i]
                == ' ' && 0 < i < all.len() - 1 && !is_space(all[i + 1]) by {
                if i < before.len() {
                    assert(all[i] == before[i]);
                    assert(all[i + 1] == before[i + 1]);
                }
            }
        }
    }
}

/// The text without the white space that it starts with.
pub open spec fn trimmed_start(text: Seq<char>) -> Seq<char>
    decreases text.len(),
{
    if text.len() > 0 && is_space(text[0]) {
        trimmed_start(text.skip(1))
    } else {
        text
    }
}

/// The text without the white space that it ends with.
pub open spec fn trimmed_end(text: Seq<char>) -> Seq<char>
    decreases text.len(),
{
    if text.len() > 0 && is_space(text.last()) {
        trimmed_end(text.drop_last())
    } else {
        text
    }
}

/// The text without the white space at its two ends.
pub open spec fn trimmed(text: Seq<char>) -> Seq<char> {
    trimmed_end(trimmed_start(text))
}

/// Cuts the white space off both ends.
pub fn trim(text: &str) -> (r: String)
    ensures
        r@ == trimmed(text@),
{
    let chars: Vec<char> = chars_of(text);
    let mut from: usize = 0;
    assert(text@.skip(0) =~= text@);
    while from < chars.len() && chars[from].is_whitespace()
        invariant
            chars@ == text@,
            from <= chars@.len(),
            trimmed_start(text@) == trimmed_start(text@.skip(from as int)),
        decreases chars@.len() - from,
    {
        assert(text@.skip(from as int).skip(1) =~= text@.skip(from + 1));
        from = from + 1;
    }
    let ghost rest = text@.skip(from as int);
    let mut to: usize = chars.len();
    assert(chars@.subrange(from as int, to as int) =~= rest);
    while to > from && chars[to - 1].is_whitespace()
        invariant
            chars@ == text@,
            from <= to <= chars@.len(),
            trimmed_end(rest) == trimmed_end(chars@.subrange(from as int, to as int)),
        decreases to,
    {
        assert(chars@.subrange(from as int, to as int).drop_last() =~= chars@.subrange(
            from as int,
            to - 1,
        ));
        to = to - 1;
    }
    text_of(&chars, from, to)
}

/// Whether `part` stands in `text` at position `at`.
pub open spec fn stands_at(text: Seq<char>, part: Seq<char>, at: int) -> bool {
    &&& 0 <= at
    &&& at + part.len() <= text.len()
    &&& text.subrange(at, at + part.len()) == part
}

/// Whether `part` occurs somewhere in `text`.
pub open spec fn has_part(text: Seq<char>, part: Seq<char>) -> bool {
    exists|at: int| #[trigger] stands_at(text, part, at)
}

/// Compares the characters of `part` with those of `text` from position `at` on.
fn part_stands_at(text: &Vec<char>, part: &Vec<char>, at: usize) -> (r: bool)
    requires
        at <= text@.len(),
    ensures
        r == stands_at(text@, part@, at as int),
{
    let total: usize = text.len();
    if part.len() > total - at {
        return false;
    }
    let mut i: usize = 0;
    while i < part.len()
        invariant
            i <= part@.len(),
            total == text@.len(),
            at + part@.len() <= total,
            forall|k: int| 0 <= k < i ==> text@[at + k] == #[trigger] part@[k],
        decreases part@.len() - i,
    {
        if text[at + i] != part[i] {
            assert(text@.subrange(at as int, at + part@.len())[i as int] != part@[i as int]);
            return false;
        }
        i = i + 1;
    }
    assert(text@.subrange(at as int, at + part@.len()) =~= part@);
    true
}

/// Looks for `part` in `text`.
pub fn contains_part(text: &str, part: &str) -> (r: bool)
    ensures
        r == has_part(text@, part@),
{
    let whole: Vec<char> = chars_of(text);
    let piece: Vec<char> = chars_of(part);
    let mut at: usize = 0;
    while at < whole.len()
        invariant
            whole@ == text@,
            piece@ == part@,
            at <= whole@.len(),
            forall|k: int| 0 <= k < at ==> !#[trigger] stands_at(text@, part@, k),
        decreases whole@.len() - at,
    {
        if part_stands_at(&whole, &piece, at) {
            return true;
        }
        at = at + 1;
    }
    part_stands_at(&whole, &piece, at)
}

/// A text with each occurrence of `from` replaced by `to`, read from the front.
pub open spec fn replaced(text: Seq<char>, from: Seq<char>, to: Seq<char>) -> Seq<char>
    decreases text.len(),
{
    if text.len() == 0 {
        seq![]
    } else if from.len() > 0 && stands_at(text, from, 0) {
        to + replaced(text.skip(from.len() as int), from, to)
    } else {
        seq![text[0]] + replaced(text.skip(1), from, to)
    }
}

/// Replaces each occurrence of a text that is not empty.
pub fn replace_part(text: &str, from: &str, to: &str) -> (r: String)
    requires
        from@.len() > 0,
    ensures
        r@ == replaced(text@, from@, to@),
{
    let whole: Vec<char> = chars_of(text);
    let part: Vec<char> = chars_of(from);
    let mut out: String = String::new();
    let mut i: usize = 0;
    assert(text@.skip(0) =~= text@);
    assert(out@ + replaced(text@, from@, to@) =~= replaced(text@, from@, to@));
    while i < whole.len()
        invariant
            whole@ == text@,
            part@ == from@,
            part@.len() > 0,
            i <= whole@.len(),
            replaced(text@, from@, to@) == out@ + replaced(text@.skip(i as int), from@, to@),
        decreases whole@.len() - i,
    {
        let ghost rest = text@.skip(i as int);
        let ghost before = out@;
        assert(stands_at(text@, from@, i as int) == stands_at(rest, from@, 0)) by {
            if i + from@.len() <= text@.len() {
                assert(rest.subrange(0, from@.len() as int) =~= text@.subrange(
                    i as int,
                    i + from@.len(),
                ));
            }
        }
        if part_stands_at(&whole, &part, i) {
            out.append(to);
            assert(rest.skip(from@.len() as int) =~= text@.skip(i + from@.len()));
            assert(before + (to@ + replaced(text@.skip(i + from@.len()), from@, to@)) =~= out@
                + replaced(text@.skip(i + from@.len()), from@, to@));
            i = i + part.len();
        } else {
            out.push(whole[i]);
            assert(rest.skip(1) =~= text@.skip(i + 1));
            assert(before + (seq![text@[i as int]] + replaced(text@.skip(i + 1), from@, to@))
                =~= out@ + replaced(text@.skip(i + 1), from@, to@));
            i = i + 1;
        }
    }
    assert(out@ + replaced(text@.skip(i as int), from@, to@) =~= out@);
    out
}

/// The text after `prefix`, where it starts with that.
pub open spec fn without_prefix(text: Seq<char>, prefix: Seq<char>) -> Option<Seq<char>> {
    if stands_at(text, prefix, 0) {
        Some(text.skip(prefix.len() as int))
    } else {
        None
    }
}

/// Takes `prefix` off the front of a text.
pub fn strip_prefix(text: &str, prefix: &str) -> (r: Option<String>)
    ensures
        opt_view(r) == without_prefix(text@, prefix@),
{
    let whole: Vec<char> = chars_of(text);
    let piece: Vec<char> = chars_of(prefix);
    if part_stands_at(&whole, &piece, 0) {
        let rest: String = text_of(&whole, piece.len(), whole.len());
        assert(rest@ =~= text@.skip(prefix@.len() as int));
        Some(rest)
    } else {
        None
    }
}

/// The lower case form of an ASCII letter; any other character as it is.
pub open spec fn ascii_lower(c: char) -> char {
    if 'A' <= c <= 'Z' {
        ((c as u32) + 32) as char
    } else {
        c
    }
}

/// A text with its ASCII letters in lower case.
pub open spec fn ascii_lowercase(text: Seq<char>) -> Seq<char> {
    text.map_values(|c: char| ascii_lower(c))
}

/// Turns an ASCII letter to lower case.
fn lower_char(c: char) -> (r: char)
    ensures
        r == ascii_lower(c),
{
    if 'A' <= c && c <= 'Z' {
        let code: u8 = c as u8;
        (code + 32) as char
    } else {
        c
    }
}

/// Turns the ASCII letters of a text to lower case.
pub fn to_ascii_lowercase(text: &str) -> (r: String)
    ensures
        r@ == ascii_lowercase(text@),
{
    let mut out: String = String::new();
    for c in it: text.chars()
        invariant
            it.seq() == text@,
            out@ == ascii_lowercase(text@).take(it.index()),
    {
        out.push(lower_char(c));
        assert(out@ =~= ascii_lowercase(text@).take(it.index() + 1));
    }
    assert(ascii_lowercase(text@).take(text@.len() as int) =~= ascii_lowercase(text@));
    out
}

/// Whether a character is an ASCII decimal digit.
pub open spec fn is_digit(c: char) -> bool {
    '0' <= c <= '9'
}

/// Whether a character is an ASCII hexadecimal digit, in either case.
pub open spec fn is_hex_digit(c: char) -> bool {
    is_digit(c) || 'a' <= c <= 'f' || 'A' <= c <= 'F'
}

/// Whether a text is made of ASCII hexadecimal digits alone.
pub open spec fn all_hex(text: Seq<char>) -> bool {
    forall|i: int| 0 <= i < text.len() ==> is_hex_digit(#[trigger] text[i])
}

/// Tells whether a text is made of exactly `count` hexadecimal digits.
pub fn is_hex_text(text: &str, count: usize) -> (r: bool)
    ensures
        r == (text@.len() == count && all_hex(text@)),
{
    let chars: Vec<char> = chars_of(text);
    if chars.len() != count {
        return false;
    }
    let mut i: usize = 0;
    while i < chars.len()
        invariant
            chars@ == text@,
            i <= chars@.len(),
            forall|k: int| 0 <= k < i ==> is_hex_digit(#[trigger] text@[k]),
        decreases chars@.len() - i,
    {
        let c: char = chars[i];
        let hex: bool = ('0' <= c && c <= '9') || ('a' <= c && c <= 'f') || ('A' <= c && c <= 'F');
        if !hex {
            assert(!is_hex_digit(text@[i as int]));
            return false;
        }
        i = i + 1;
    }
    true
}

/// The decimal digit for a number below ten.
pub open spec fn digit_char(n: nat) -> char {
    ((n + 48) as u32) as char
}

/// A number in decimal, without leading zeros.
pub open spec fn decimal_text(n: nat) -> Seq<char>
    decreases n,
{
    if n < 10 {
        seq![digit_char(n)]
    } else {
        decimal_text(n / 10).push(digit_char(n % 10))
    }
}

/// Writes a number in decimal.
pub fn decimal(n: u64) -> (r: String)
    ensures
        r@ == decimal_text(n as nat),
    decreases n,
{
    let last: u8 = (n % 10) as u8;
    let c: char = (last + 48) as char;
    if n < 10 {
        let mut out: String = String::new();
        out.push(c);
        assert(out@ =~= decimal_text(n as nat));
        out
    } else {
        let mut out: String = decimal(n / 10);
        out.push(c);
        out
    }
}

/// The value of a run of decimal digits, first digit first.
pub open spec fn digits_value(text: Seq<char>) -> Option<nat>
    decreases text.len(),
{
    if text.len() == 0 {
        Some(0)
    } else {
        match digits_value(text.drop_last()) {
            Some(value) => if is_digit(text.last()) {
                Some((value * 10 + (text.last() as u32 - 48)) as nat)
            } else {
                None
            },
            None => None,
        }
    }
}

/// The value of a run of digits, where there is a digit and the value is at most `most`.
pub open spec fn bounded_value(text: Seq<char>, most: nat) -> Option<nat> {
    match digits_value(text) {
        Some(value) => if text.len() > 0 && value <= most {
            Some(value)
        } else {
            None
        },
        None => None,
    }
}

/// The number that a text names in decimal, with an optional plus sign, where it fits in `u32`.
pub open spec fn parsed_u32(text: Seq<char>) -> Option<nat> {
    if text.len() > 1 && text[0] == '+' {
        bounded_value(text.skip(1), u32::MAX as nat)
    } else {
        bounded_value(text, u32::MAX as nat)
    }
}

/// The number that a text names in decimal, with an optional sign, where it fits in `i32`.
pub open spec fn parsed_i32(text: Seq<char>) -> Option<int> {
    if text.len() > 1 && text[0] == '-' {
        match bounded_value(text.skip(1), 0x8000_0000) {
            Some(value) => Some(-(value as int)),
            None => None,
        }
    } else {
        match bounded_value(
            if text.len() > 1 && text[0] == '+' {
                text.skip(1)
            } else {
                text
            },
            i32::MAX as nat,
        ) {
            Some(value) => Some(value as int),
            None => None,
        }
    }
}

/// A longer run of digits has a value at least as large.
proof fn lemma_digits_grow(text: Seq<char>, at: int)
    requires
        0 <= at <= text.len(),
        digits_value(text) is Some,
    ensures
        digits_value(text.take(at)) is Some,
        digits_value(text.take(at))->0 <= digits_value(text)->0,
    decreases text.len() - at,
{
    if at == text.len() {
        assert(text.take(at) =~= text);
    } else {
        lemma_digits_grow(text, at + 1);
        assert(text.take(at + 1).drop_last() =~= text.take(at));
    }
}

/// Reads the digits from position `from` on.
fn read_digits(chars: &Vec<char>, from: usize, most: u64) -> (r: Option<u64>)
    requires
        from <= chars@.len(),
        most <= 0xffff_ffff,
    ensures
        match r {
            Some(value) => bounded_value(chars@.skip(from as int), most as nat) == Some(
                value as nat,
            ),
            None => bounded_value(chars@.skip(from as int), most as nat) is None,
        },
{
    let ghost text = chars@.skip(from as int);
    if from == chars.len() {
        return None;
    }
    let mut value: u64 = 0;
    let mut i: usize = from;
    while i < chars.len()
        invariant
            from <= i <= chars@.len(),
            most <= 0xffff_ffff,
            text == chars@.skip(from as int),
            value <= most,
            digits_value(text.take(i - from)) == Some(value as nat),
        decreases chars@.len() - i,
    {
        let c: char = chars[i];
        proof {
            assert(text.take(i + 1 - from).drop_last() =~= text.take(i - from));
            assert(text.take(i + 1 - from).last() == c);
            if digits_value(text) is Some {
                lemma_digits_grow(text, i + 1 - from);
            }
        }
        if !('0' <= c && c <= '9') {
            return None;
        }
        value = value * 10 + (c as u32 as u64 - 48);
        if value > most {
            return None;
        }
        i = i + 1;
    }
    assert(text.take(i - from) =~= text);
    Some(value)
}

/// Reads a decimal `u32`.
pub fn parse_u32(text: &str) -> (r: Option<u32>)
    ensures
        match r {
            Some(value) => parsed_u32(text@) == Some(value as nat),
            None => parsed_u32(text@) is None,
        },
{
    let chars: Vec<char> = chars_of(text);
    assert(chars@.skip(0) =~= chars@);
    let from: usize = if chars.len() > 1 && chars[0] == '+' {
        1
    } else {
        0
    };
    match read_digits(&chars, from, 0xffff_ffff) {
        Some(value) => Some(value as u32),
        None => None,
    }
}

/// Reads a decimal `i32`.
pub fn parse_i32(text: &str) -> (r: Option<i32>)
    ensures
        match r {
            Some(value) => parsed_i32(text@) == Some(value as int),
            None => parsed_i32(text@) is None,
        },
{
    let chars: Vec<char> = chars_of(text);
    assert(chars@.skip(0) =~= chars@);
    if chars.len() > 1 && chars[0] == '-' {
        match read_digits(&chars, 1, 0x8000_0000) {
            Some(value) => Some((0 - value as i64) as i32),
            None => None,
        }
    } else {
        let from: usize = if chars.len() > 1 && chars[0] == '+' {
            1
        } else {
            0
        };
        match read_digits(&chars, from, 0x7fff_ffff) {
            Some(value) => Some(value as i32),
            None => None,
        }
    }
}

/// Whether `a` comes before `b` when texts are ordered by their first differing character.
pub open spec fn text_before(a: Seq<char>, b: Seq<char>) -> bool
    decreases a.len(),
{
    if b.len() == 0 {
        false
    } else if a.len() == 0 {
        true
    } else if a[0] != b[0] {
        a[0] < b[0]
    } else {
        text_before(a.skip(1), b.skip(1))
    }
}

/// Orders two texts.
pub fn is_before(a: &str, b: &str) -> (r: bool)
    ensures
        r == text_before(a@, b@),
{
    let left: Vec<char> = chars_of(a);
    let right: Vec<char> = chars_of(b);
    let mut i: usize = 0;
    assert(a@.skip(0) =~= a@);
    assert(b@.skip(0) =~= b@);
    while i < left.len() && i < right.len() && left[i] == right[i]
        invariant
            left@ == a@,
            right@ == b@,
            i <= left@.len(),
            i <= right@.len(),
            text_before(a@, b@) == text_before(a@.skip(i as int), b@.skip(i as int)),
        decreases left@.len() - i,
    {
        assert(a@.skip(i as int).skip(1) =~= a@.skip(i + 1));
        assert(b@.skip(i as int).skip(1) =~= b@.skip(i + 1));
        i = i + 1;
    }
    if i >= right.len() {
        false
    } else if i >= left.len() {
        true
    } else {
        left[i] < right[i]
    }
}

/// A part stands where the text has its characters one by one, and nowhere else.
pub proof fn law_part_stands(text: Seq<char>, part: Seq<char>, at: int)
    ensures
        stands_at(text, part, at) <==> {
            &&& 0 <= at <= text.len() - part.len()
            &&& forall|k: int| 0 <= k < part.len() ==> text[at + k] == #[trigger] part[k]
        },
{
    if stands_at(text, part, at) {
        assert forall|k: int| 0 <= k < part.len() implies text[at + k] == #[trigger] part[k] by {
            assert(text.subrange(at, at + part.len())[k] == text[at + k]);
        }
    }
    if 0 <= at <= text.len() - part.len() && forall|k: int|
        0 <= k < part.len() ==> text[at + k] == #[trigger] part[k] {
        assert(text.subrange(at, at + part.len()) =~= part);
    }
}

/// A text has a part exactly where it is made of something, the part, and something more.
pub proof fn law_has_part(text: Seq<char>, part: Seq<char>)
    ensures
        has_part(text, part) <==> exists|before: Seq<char>, after: Seq<char>|
            text == #[trigger] (before + part + after),
{
    if has_part(text, part) {
        let at = choose|at: int| #[trigger] stands_at(text, part, at);
        let before = text.take(at);
        let after = text.skip(at + part.len());
        assert(text =~= before + part + after) by {
            assert(text.subrange(at, at + part.len()) == part);
        }
    }
    if exists|before: Seq<char>, after: Seq<char>| text == #[trigger] (before + part + after) {
        let (before, after) = choose|before: Seq<char>, after: Seq<char>|
            text == #[trigger] (before + part + after);
        assert(text.subrange(before.len() as int, (before.len() + part.len()) as int) =~= part);
        assert(stands_at(text, part, before.len() as int));
    }
}

/// Taking a prefix off undoes putting it in front, and is possible only then.
pub proof fn law_prefix(text: Seq<char>, prefix: Seq<char>, rest: Seq<char>)
    ensures
        without_prefix(text, prefix) == Some(rest) <==> text == prefix + rest,
{
    if text == prefix + rest {
        assert(text.subrange(0, prefix.len() as int) =~= prefix);
        assert(text.skip(prefix.len() as int) =~= rest);
    }
    if without_prefix(text, prefix) == Some(rest) {
        assert(text.subrange(0, prefix.len() as int) == prefix);
        assert(text =~= prefix + rest);
    }
}

/// Whether a text is another one without white space around it, from a place on.
pub open spec fn is_core_at(core: Seq<char>, text: Seq<char>, from: int) -> bool {
    &&& 0 <= from
    &&& from + core.len() <= text.len()
    &&& forall|i: int|
        0 <= i < text.len() ==> if from <= i < from + core.len() {
            #[trigger] text[i] == core[i - from]
        } else {
            is_space(text[i])
        }
}

/// What is left after white space at the start is cut off.
proof fn lemma_trimmed_start(text: Seq<char>)
    ensures
        exists|from: int|
            0 <= from <= text.len() && trimmed_start(text) == #[trigger] text.skip(from)
                && forall|i: int| 0 <= i < from ==> is_space(#[trigger] text[i]),
        trimmed_start(text).len() > 0 ==> !is_space(trimmed_start(text)[0]),
    decreases text.len(),
{
    if text.len() > 0 && is_space(text[0]) {
        let rest = text.skip(1);
        lemma_trimmed_start(rest);
        let from = choose|from: int|
            0 <= from <= rest.len() && trimmed_start(rest) == #[trigger] rest.skip(from)
                && forall|i: int| 0 <= i < from ==> is_space(#[trigger] rest[i]);
        assert(rest.skip(from) =~= text.skip(from + 1));
        assert forall|i: int| 0 <= i < from + 1 implies is_space(#[trigger] text[i]) by {
            if i > 0 {
                assert(rest[i - 1] == text[i]);
            }
        }
    } else {
        assert(text.skip(0) =~= text);
    }
}

/// What is left after white space at the end is cut off.
proof fn lemma_trimmed_end(text: Seq<char>)
    ensures
        trimmed_end(text).len() <= text.len(),
        trimmed_end(text) == text.take(trimmed_end(text).len() as int),
        forall|i: int| trimmed_end(text).len() <= i < text.len() ==> is_space(#[trigger] text[i]),
        trimmed_end(text).len() > 0 ==> !is_space(trimmed_end(text).last()),
    decreases text.len(),
{
    if text.len() > 0 && is_space(text.last()) {
        let front = text.drop_last();
        lemma_trimmed_end(front);
        let left = trimmed_end(front);
        assert(front.take(left.len() as int) =~= text.take(left.len() as int));
        assert forall|i: int| left.len() <= i < text.len() implies is_space(#[trigger] text[i]) by {
            if i < front.len() {
                assert(front[i] == text[i]);
            }
        }
    } else {
        assert(text.take(text.len() as int) =~= text);
    }
}

/// Trimming cuts off white space at the two ends, all of it, and nothing else.
pub proof fn law_trimmed(text: Seq<char>)
    ensures
        exists|from: int| #[trigger] is_core_at(trimmed(text), text, from),
        trimmed(text).len() > 0 ==> !is_space(trimmed(text)[0]) && !is_space(trimmed(text).last()),
{
    lemma_trimmed_start(text);
    let start = trimmed_start(text);
    lemma_trimmed_end(start);
    let core = trimmed(text);
    let from = choose|from: int|
        0 <= from <= text.len() && start == #[trigger] text.skip(from) && forall|i: int|
            0 <= i < from ==> is_space(#[trigger] text[i]);
    assert forall|i: int| 0 <= i < text.len() implies if from <= i < from + core.len() {
        #[trigger] text[i] == core[i - from]
    } else {
        is_space(text[i])
    } by {
        if i >= from {
            assert(start[i - from] == text[i]);
        }
    }
    assert(is_core_at(core, text, from));
    if core.len() > 0 {
        assert(core[0] == start[0]);
    }
}

/// A text without the part to be replaced stays as it is.
pub proof fn law_nothing_to_replace(text: Seq<char>, from: Seq<char>, to: Seq<char>)
    requires
        from.len() > 0,
        !has_part(text, from),
    ensures
        replaced(text, from, to) == text,
    decreases text.len(),
{
    if text.len() > 0 {
        assert(!stands_at(text, from, 0));
        let rest = text.skip(1);
        assert(!has_part(rest, from)) by {
            if has_part(rest, from) {
                let at = choose|at: int| #[trigger] stands_at(rest, from, at);
                assert(text.subrange(at + 1, at + 1 + from.len()) =~= rest.subrange(
                    at,
                    at + from.len(),
                ));
                assert(stands_at(text, from, at + 1));
            }
        }
        law_nothing_to_replace(rest, from, to);
        assert(seq![text[0]] + rest =~= text);
    }
}

/// Replacing goes from the front: what stands before the first occurrence stays, the occurrence
/// gives way, and the rest is replaced in turn.
pub proof fn law_first_is_replaced(
    before: Seq<char>,
    from: Seq<char>,
    to: Seq<char>,
    after: Seq<char>,
)
    requires
        from.len() > 0,
        forall|k: int|
            0 <= k < before.len() ==> !#[trigger] stands_at(before + from + after, from, k),
    ensures
        replaced(before + from + after, from, to) == before + to + replaced(after, from, to),
    decreases before.len(),
{
    let text = before + from + after;
    if before.len() == 0 {
        assert(text.subrange(0, from.len() as int) =~= from);
        assert(text.skip(from.len() as int) =~= after);
        assert(before + to =~= to);
    } else {
        let rest = before.skip(1);
        assert(!stands_at(text, from, 0));
        assert(text.skip(1) =~= rest + from + after);
        assert forall|k: int| 0 <= k < rest.len() implies !#[trigger] stands_at(
            rest + from + after,
            from,
            k,
        ) by {
            if stands_at(rest + from + after, from, k) {
                assert(text.subrange(k + 1, k + 1 + from.len()) =~= (rest + from + after).subrange(
                    k,
                    k + from.len(),
                ));
                assert(stands_at(text, from, k + 1));
            }
        }
        law_first_is_replaced(rest, from, to, after);
        assert(seq![text[0]] + (rest + to + replaced(after, from, to)) =~= before + to + replaced(
            after,
            from,
            to,
        ));
    }
}

/// Lower case has no capital letter of ASCII, differs only where there was one, and there by the
/// distance of the two cases.
pub proof fn law_lowercase(text: Seq<char>)
    ensures
        ascii_lowercase(text).len() == text.len(),
        forall|i: int|
            0 <= i < text.len() ==> {
                let lower = #[trigger] ascii_lowercase(text)[i];
                &&& !('A' <= lower <= 'Z')
                &&& 'A' <= text[i] <= 'Z' ==> lower as u32 == text[i] as u32 + ('a' as u32
                    - 'A' as u32)
                &&& !('A' <= text[i] <= 'Z') ==> lower == text[i]
            },
        ascii_lowercase(ascii_lowercase(text)) == ascii_lowercase(text),
{
    let lower = ascii_lowercase(text);
    assert forall|i: int| 0 <= i < text.len() implies {
        &&& !('A' <= #[trigger] lower[i] <= 'Z')
        &&& 'A' <= text[i] <= 'Z' ==> lower[i] as u32 == text[i] as u32 + ('a' as u32 - 'A' as u32)
        &&& !('A' <= text[i] <= 'Z') ==> lower[i] == text[i]
    } by {
        assert(lower[i] == ascii_lower(text[i]));
    }
    assert(ascii_lowercase(lower) =~= lower);
}

/// A digit behind others makes ten times their value and its own; anything else makes no number.
pub proof fn law_digits(text: Seq<char>, c: char)
    ensures
        digits_value(seq![]) == Some(0nat),
        '0' <= c <= '9' && digits_value(text) is Some ==> digits_value(text.push(c)) == Some(
            (digits_value(text)->0 * 10 + (c as u32 - '0' as u32)) as nat,
        ),
        !('0' <= c <= '9') || digits_value(text) is None ==> digits_value(text.push(c)) is None,
{
    assert(text.push(c).drop_last() =~= text);
}

/// Only the empty text and runs of digits have a value.
proof fn lemma_value_means_digits(text: Seq<char>)
    ensures
        digits_value(text) is Some <==> forall|i: int|
            0 <= i < text.len() ==> '0' <= #[trigger] text[i] <= '9',
    decreases text.len(),
{
    if text.len() > 0 {
        let front = text.drop_last();
        lemma_value_means_digits(front);
        assert(text[text.len() - 1] == text.last());
        assert(forall|i: int| 0 <= i < front.len() ==> front[i] == #[trigger] text[i]);
    }
}

/// A number is read from digits alone, with a plus sign in front or without, and is their value
/// where that fits.
pub proof fn law_parsed_number(text: Seq<char>)
    requires
        text.len() > 0,
        forall|i: int| 0 <= i < text.len() ==> '0' <= #[trigger] text[i] <= '9',
    ensures
        digits_value(text) is Some,
        parsed_u32(text) == parsed_u32(seq!['+'] + text),
        digits_value(text)->0 <= 0xffff_ffff ==> parsed_u32(text) == digits_value(text),
        digits_value(text)->0 > 0xffff_ffff ==> parsed_u32(text) is None,
        digits_value(text)->0 <= 0x7fff_ffff ==> parsed_i32(text) == Some(
            digits_value(text)->0 as int,
        ) && parsed_i32(seq!['-'] + text) == Some(-(digits_value(text)->0 as int)),
{
    lemma_value_means_digits(text);
    assert((seq!['+'] + text).skip(1) =~= text);
    assert((seq!['-'] + text).skip(1) =~= text);
    assert('0' <= text[0] <= '9');
}

/// A number that is written in decimal reads as itself, and starts with a zero only where it is
/// zero.
pub proof fn law_decimal(n: nat)
    ensures
        decimal_text(n).len() > 0,
        digits_value(decimal_text(n)) == Some(n),
        decimal_text(n)[0] == '0' ==> n == 0,
        forall|i: int| 0 <= i < decimal_text(n).len() ==> '0' <= #[trigger] decimal_text(n)[i] <= '9',
    decreases n,
{
    let text = decimal_text(n);
    if n < 10 {
        assert(text.drop_last() =~= seq![]);
        reveal_with_fuel(digits_value, 2);
    } else {
        let front = decimal_text(n / 10);
        law_decimal(n / 10);
        assert(text.drop_last() =~= front);
        assert(text[0] == front[0]);
        assert forall|i: int| 0 <= i < text.len() implies '0' <= #[trigger] text[i] <= '9' by {
            if i < front.len() {
                assert(text[i] == front[i]);
            }
        }
    }
}

/// Of two texts the one with the lower character where they first differ comes first, and a text
/// comes before all that go on from it.
pub proof fn law_text_order(start: Seq<char>, a: char, b: char, x: Seq<char>, y: Seq<char>)
    ensures
        a < b ==> text_before(start + seq![a] + x, start + seq![b] + y),
        a < b ==> !text_before(start + seq![b] + y, start + seq![a] + x),
        text_before(start, start + seq![a] + x),
        !text_before(start + seq![a] + x, start),
        !text_before(start, start),
    decreases start.len(),
{
    let left = start + seq![a] + x;
    let right = start + seq![b] + y;
    if start.len() > 0 {
        let rest = start.skip(1);
        law_text_order(rest, a, b, x, y);
        assert(left.skip(1) =~= rest + seq![a] + x);
        assert(right.skip(1) =~= rest + seq![b] + y);
        assert(left[0] == start[0] && right[0] == start[0]);
    } else {
        assert(left[0] == a && right[0] == b);
    }
}

/// Joining puts the separator between neighbours and nowhere else.
pub proof fn law_joined(parts: Seq<Seq<char>>, part: Seq<char>, separator: Seq<char>)
    ensures
        joined(seq![], separator) == Seq::<char>::empty(),
        joined(seq![part], separator) == part,
        parts.len() > 0 ==> joined(parts.push(part), separator) == joined(parts, separator)
            + separator + part,
{
    assert(parts.push(part).drop_last() =~= parts);
}

/// Two texts that go up to a mark which neither holds are told apart by what follows.
pub proof fn lemma_cut_at_mark(a: Seq<char>, b: Seq<char>, mark: char, x: Seq<char>, y: Seq<char>)
    requires
        a + seq![mark] + x == b + seq![mark] + y,
        !a.contains(mark),
        !b.contains(mark),
    ensures
        a == b,
        x == y,
{
    let whole = a + seq![mark] + x;
    let other = b + seq![mark] + y;
    if a.len() < b.len() {
        assert(whole[a.len() as int] == mark);
        assert(other[a.len() as int] == b[a.len() as int]);
        assert(b.contains(b[a.len() as int]));
    }
    if b.len() < a.len() {
        assert(other[b.len() as int] == mark);
        assert(whole[b.len() as int] == a[b.len() as int]);
        assert(a.contains(a[b.len() as int]));
    }
    assert(a =~= whole.take(a.len() as int));
    assert(b =~= other.take(b.len() as int));
    assert(x =~= whole.skip(a.len() as int + 1));
    assert(y =~= other.skip(b.len() as int + 1));
}

/// What stands behind the same text is told apart.
pub proof fn lemma_same_start(start: Seq<char>, x: Seq<char>, y: Seq<char>)
    requires
        start + x == start + y,
    ensures
        x == y,
{
    assert(x =~= (start + x).skip(start.len() as int));
    assert(y =~= (start + y).skip(start.len() as int));
}

} // verus!
