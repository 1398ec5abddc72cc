//! The lasting identity of schedule items.

use vstd::prelude::*;

use crate::digest::{digest, is_digest, sha256_hex};
use crate::evidence::found_groups;
use crate::model::{LinkView, SourceLink};
use crate::order::{law_order_forgets_order, law_ordered, ordered, own_text, sort_texts};
use crate::pattern::{
    captures, fills, first_groups, goes_on_with_deadline, group_views, has_no_deadline, has_shape,
    replace_first, with_first_replaced, ASSIGNMENT_CODE, DUE_TAIL, WEEK_CODE,
};
use crate::text::{
    all_hex, ascii_lower, ascii_lowercase, concat, concat3, is_digit, is_hex_digit, is_hex_text,
    join, joined, law_prefix, lemma_same_start, normalize, normalized, opt_view, stands_at,
    strip_prefix, to_ascii_lowercase, to_lowercase, unicode_lowercase, views, without_prefix,
};

verus! {

/// The kind of an assignment code in lower case; both forms of a project have one kind.
pub open spec fn code_kind(kind: Seq<char>) -> Seq<char> {
    let lower = ascii_lowercase(kind);
    if stands_at(lower, "proj"@, 0) {
        "proj"@
    } else {
        lower
    }
}

/// The code that the groups of an assignment code name, or else those of a week's code-alongs.
pub open spec fn code_of_groups(
    assignment: Option<Seq<Option<Seq<char>>>>,
    week: Option<Seq<Option<Seq<char>>>>,
) -> Option<Seq<char>> {
    match assignment {
        Some(groups) => Some(code_kind(groups[1]->0) + groups[2]->0),
        None => match week {
            Some(groups) => Some("wk"@ + groups[1]->0 + "-code-alongs"@),
            None => None,
        },
    }
}

/// The assignment code that a schedule text holds.
pub open spec fn code_of(text: Seq<char>) -> Option<Seq<char>> {
    code_of_groups(first_groups(ASSIGNMENT_CODE@, text), first_groups(WEEK_CODE@, text))
}

/// Makes a code of the groups that an assignment code was read into, or else of those of a week's
/// code-alongs.
pub fn code_from_groups(
    assignment: &Option<Vec<Option<String>>>,
    week: &Option<Vec<Option<String>>>,
) -> (r: Option<String>)
    requires
        assignment matches Some(groups) ==> fills(group_views(groups@), 3, -1),
        week matches Some(groups) ==> fills(group_views(groups@), 2, -1),
    ensures
        opt_view(r) == code_of_groups(found_groups(*assignment), found_groups(*week)),
{
    match assignment {
        Some(groups) => {
            let ghost parts = group_views(groups@);
            assert(parts[1] is Some && parts[2] is Some);
            match (&groups[1], &groups[2]) {
                (Some(kind), Some(number)) => {
                    let lower: String = to_ascii_lowercase(kind.as_str());
                    match strip_prefix(lower.as_str(), "proj") {
                        Some(_) => Some(concat("proj", number.as_str())),
                        None => Some(concat(lower.as_str(), number.as_str())),
                    }
                },
                _ => None,
            }
        },
        None => match week {
            Some(groups) => {
                let ghost parts = group_views(groups@);
                assert(parts[1] is Some);
                match &groups[1] {
                    Some(number) => Some(concat3("wk", number.as_str(), "-code-alongs")),
                    None => None,
                }
            },
            None => None,
        },
    }
}

/// Finds the assignment code of a schedule text.
pub fn assignment_code(text: &str) -> (r: Option<String>)
    ensures
        opt_view(r) == code_of(text@),
{
    let assignment: Option<Vec<Option<String>>> = captures(ASSIGNMENT_CODE, text);
    let week: Option<Vec<Option<String>>> = captures(WEEK_CODE, text);
    assert(has_shape(ASSIGNMENT_CODE@, 3, -1));
    assert(has_shape(WEEK_CODE@, 2, -1));
    code_from_groups(&assignment, &week)
}

/// The source that a manual identity copies: 64 hexadecimal digits behind a fixed word.
pub open spec fn copied_source(manual: Seq<char>) -> Option<Seq<char>> {
    match without_prefix(manual, "source_key:"@) {
        Some(rest) => if rest.len() == 64 && all_hex(rest) {
            Some(ascii_lowercase(rest))
        } else {
            None
        },
        None => None,
    }
}

/// The addresses of links.
pub open spec fn urls_of(links: Seq<LinkView>) -> Seq<Seq<char>> {
    links.map_values(|link: LinkView| link.url)
}

/// What a source is known by: a manual identity, else its code, else its links in order, else its
/// text without the deadline.
pub open spec fn basis_of(
    text: Seq<char>,
    links: Seq<LinkView>,
    manual: Option<Seq<char>>,
    code: Option<Seq<char>>,
) -> Seq<char> {
    match manual {
        Some(manual) => "manual:"@ + unicode_lowercase(normalized(manual)),
        None => match code {
            Some(code) => "code:"@ + code,
            None => if links.len() > 0 {
                "links:"@ + joined(ordered(urls_of(links), own_text()), "\n"@)
            } else {
                "text:"@ + unicode_lowercase(
                    normalized(with_first_replaced(DUE_TAIL@, text, ""@)),
                )
            },
        },
    }
}

/// The identity of a source, where its code is known.
pub open spec fn coded_source_key(
    text: Seq<char>,
    links: Seq<LinkView>,
    manual: Option<Seq<char>>,
    code: Option<Seq<char>>,
) -> Seq<char> {
    match (match manual {
        Some(manual) => copied_source(manual),
        None => None,
    }) {
        Some(copied) => copied,
        None => sha256_hex(
            "chronatello\ndata385\nfall-2026\n"@ + basis_of(text, links, manual, code),
        ),
    }
}

/// The identity of a source.
pub open spec fn source_key_of(
    text: Seq<char>,
    links: Seq<LinkView>,
    manual: Option<Seq<char>>,
) -> Seq<char> {
    coded_source_key(text, links, manual, code_of(text))
}

/// What a text that goes on with a deadline is known by: what stands before the deadline.
pub open spec fn start_basis(start: Seq<char>) -> Seq<char> {
    "text:"@ + unicode_lowercase(normalized(start))
}

/// The identity of a source that is known by what stands before its deadline.
pub open spec fn start_source_key(start: Seq<char>) -> Seq<char> {
    sha256_hex("chronatello\ndata385\nfall-2026\n"@ + start_basis(start))
}

/// Whether a text is a start without a deadline and a deadline behind it.
pub open spec fn is_due_start(text: Seq<char>, start: Seq<char>) -> bool {
    goes_on_with_deadline(text, start) && has_no_deadline(start)
}

/// Sixty-four hexadecimal digits in lower case are a digest.
proof fn lemma_lower_hex(text: Seq<char>)
    requires
        text.len() == 64,
        all_hex(text),
    ensures
        is_digest(ascii_lowercase(text)),
{
    let lower = ascii_lowercase(text);
    assert forall|i: int| 0 <= i < lower.len() implies is_digit(#[trigger] lower[i]) || 'a'
        <= lower[i] <= 'f' by {
        assert(lower[i] == ascii_lower(text[i]));
    }
}

/// Reads the source that a manual identity copies.
fn copy_source(manual: &Option<String>) -> (r: Option<String>)
    ensures
        opt_view(r) == (match *manual {
            Some(manual) => copied_source(manual@),
            None => None,
        }),
        r matches Some(copied) ==> is_digest(copied@),
{
    match manual {
        Some(manual) => match strip_prefix(manual.as_str(), "source_key:") {
            Some(rest) => if is_hex_text(rest.as_str(), 64) {
                proof {
                    lemma_lower_hex(rest@);
                }
                Some(to_ascii_lowercase(rest.as_str()))
            } else {
                None
            },
            None => None,
        },
        None => None,
    }
}

/// Lists the addresses of links.
fn list_urls(links: &Vec<SourceLink>) -> (r: Vec<String>)
    ensures
        views(r@) == urls_of(views(links@)),
{
    let ghost all = urls_of(views(links@));
    let mut urls: Vec<String> = Vec::new();
    let mut i: usize = 0;
    while i < links.len()
        invariant
            i <= links@.len(),
            all == urls_of(views(links@)),
            views(urls@) =~= all.take(i as int),
        decreases links@.len() - i,
    {
        let ghost before = views(urls@);
        urls.push(links[i].url.clone());
        assert(views(urls@) =~= before.push(all[i as int]));
        i = i + 1;
    }
    urls
}

/// Makes what a source is known by.
fn make_basis(
    text: &str,
    links: &Vec<SourceLink>,
    manual: &Option<String>,
    code: &Option<String>,
) -> (r: String)
    ensures
        r@ == basis_of(text@, views(links@), opt_view(*manual), opt_view(*code)),
        *manual is None && *code is None && links@.len() == 0 ==> forall|start: Seq<char>|
            #[trigger] is_due_start(text@, start) ==> r@ == start_basis(start),
{
    match manual {
        Some(manual) => {
            let reduced: String = normalize(manual.as_str());
            let lower: String = to_lowercase(reduced.as_str());
            concat("manual:", lower.as_str())
        },
        None => match code {
            Some(code) => concat("code:", code.as_str()),
            None => if links.len() > 0 {
                let urls: Vec<String> = sort_texts(list_urls(links));
                let list: String = join(&urls, "\n");
                concat("links:", list.as_str())
            } else {
                proof {
                    reveal_strlit("");
                }
                let bare: String = replace_first(DUE_TAIL, text, "");
                let reduced: String = normalize(bare.as_str());
                proof {
                    assert forall|start: Seq<char>| #[trigger] is_due_start(
                        text@,
                        start,
                    ) implies reduced@ == normalized(start) by {
                        assert(bare@ =~= start.push(' '));
                        assert(start.push(' ').drop_last() =~= start);
                    }
                }
                let lower: String = to_lowercase(reduced.as_str());
                concat("text:", lower.as_str())
            },
        },
    }
}

/// Makes the identity of a source whose code is known.
pub fn source_key_with_code(
    text: &str,
    links: &Vec<SourceLink>,
    manual: &Option<String>,
    code: &Option<String>,
) -> (r: String)
    ensures
        r@ == coded_source_key(text@, views(links@), opt_view(*manual), opt_view(*code)),
        is_digest(r@),
        *manual is None && *code is None && links@.len() == 0 ==> forall|start: Seq<char>|
            #[trigger] is_due_start(text@, start) ==> r@ == start_source_key(start),
{
    match copy_source(manual) {
        Some(copied) => copied,
        None => {
            let basis: String = make_basis(text, links, manual, code);
            let whole: String = concat("chronatello\ndata385\nfall-2026\n", basis.as_str());
            digest(whole.as_str())
        },
    }
}

/// Makes the identity of a source. A text without a code, without links and without a manual
/// identity that goes on with a deadline is known by what stands before the deadline alone, so
/// whatever the deadline is, the identity is the same.
pub fn source_key(text: &str, links: &Vec<SourceLink>, manual: &Option<String>) -> (r: String)
    ensures
        r@ == source_key_of(text@, views(links@), opt_view(*manual)),
        is_digest(r@),
        *manual is None && code_of(text@) is None && links@.len() == 0 ==> forall|
            start: Seq<char>,
        | #[trigger] is_due_start(text@, start) ==> r@ == start_source_key(start),
{
    let code: Option<String> = assignment_code(text);
    source_key_with_code(text, links, manual, &code)
}

/// A manual identity that copies a source gives that source, whatever the text and the links.
pub proof fn law_copied_source_is_kept(
    text: Seq<char>,
    links: Seq<LinkView>,
    source_key: Seq<char>,
)
    requires
        is_digest(source_key),
    ensures
        source_key_of(text, links, Some("source_key:"@ + source_key)) == source_key,
{
    let word = "source_key:"@;
    let manual = word + source_key;
    assert(manual.subrange(0, word.len() as int) =~= word);
    assert(manual.skip(word.len() as int) =~= source_key);
    assert(all_hex(source_key));
    assert forall|i: int| 0 <= i < source_key.len() implies ascii_lowercase(source_key)[i]
        == #[trigger] source_key[i] by {
        assert(is_digit(source_key[i]) || 'a' <= source_key[i] <= 'f');
    }
    assert(ascii_lowercase(source_key) =~= source_key);
}

/// A manual identity gives the same source to whatever text it is given to.
pub proof fn law_manual_identity_decides(
    text: Seq<char>,
    links: Seq<LinkView>,
    other_text: Seq<char>,
    other_links: Seq<LinkView>,
    manual: Seq<char>,
)
    ensures
        source_key_of(text, links, Some(manual)) == source_key_of(
            other_text,
            other_links,
            Some(manual),
        ),
{
}

/// Texts with the same assignment code have the same source, whatever else they say and wherever
/// they link to.
pub proof fn law_code_decides(
    text: Seq<char>,
    links: Seq<LinkView>,
    other_text: Seq<char>,
    other_links: Seq<LinkView>,
)
    requires
        code_of(text) is Some,
        code_of(text) == code_of(other_text),
    ensures
        source_key_of(text, links, None) == source_key_of(other_text, other_links, None),
{
}

/// Texts without a code but with the same links, in whatever order, have the same source.
pub proof fn law_links_decide(
    text: Seq<char>,
    links: Seq<LinkView>,
    other_text: Seq<char>,
    other_links: Seq<LinkView>,
)
    requires
        code_of(text) is None,
        code_of(other_text) is None,
        links.len() > 0,
        urls_of(links).to_multiset() == urls_of(other_links).to_multiset(),
    ensures
        source_key_of(text, links, None) == source_key_of(other_text, other_links, None),
{
    broadcast use vstd::seq_lib::group_to_multiset_ensures;

    let urls = urls_of(links);
    let others = urls_of(other_links);
    assert(urls.len() == urls.to_multiset().len());
    assert(others.len() == others.to_multiset().len());
    law_order_forgets_order(urls, others, own_text());
}

/// Texts without a code and without links have the same source where they are the same without
/// their deadlines, but for case and white space. So a new deadline makes no new source.
pub proof fn law_deadline_does_not_decide(text: Seq<char>, other_text: Seq<char>)
    requires
        code_of(text) is None,
        code_of(other_text) is None,
        unicode_lowercase(normalized(with_first_replaced(DUE_TAIL@, text, ""@)))
            == unicode_lowercase(normalized(with_first_replaced(DUE_TAIL@, other_text, ""@))),
    ensures
        source_key_of(text, seq![], None) == source_key_of(other_text, seq![], None),
{
}

/// A code of code-alongs is wk, the whole number of the week as it was read, and -code-alongs. So
/// two of them are equal exactly where the numbers are.
pub proof fn law_week_codes(week: Seq<Option<Seq<char>>>, other: Seq<Option<Seq<char>>>)
    requires
        fills(week, 2, -1),
        fills(other, 2, -1),
    ensures
        code_of_groups(None, Some(week)) matches Some(code) && {
            let number = week[1]->0;
            &&& code.len() == 2 + number.len() + 12
            &&& stands_at(code, "wk"@, 0)
            &&& stands_at(code, number, 2)
            &&& stands_at(code, "-code-alongs"@, (2 + number.len()) as int)
        },
        code_of_groups(None, Some(week)) == code_of_groups(None, Some(other)) <==> week[1]
            == other[1],
{
    reveal_strlit("wk");
    reveal_strlit("-code-alongs");
    let a = week[1]->0;
    let b = other[1]->0;
    let code = "wk"@ + a + "-code-alongs"@;
    assert(week[1] is Some && other[1] is Some);
    assert(code.subrange(0, 2) =~= "wk"@);
    assert(code.subrange(2, 2 + a.len() as int) =~= a);
    assert(code.subrange(2 + a.len() as int, 2 + a.len() as int + 12) =~= "-code-alongs"@);
    let others = "wk"@ + b + "-code-alongs"@;
    assert(code.len() == 14 + a.len() && others.len() == 14 + b.len());
    if code == others {
        assert(others.subrange(2, 2 + b.len() as int) =~= b);
        assert(a =~= b);
    }
}

/// A code of an assignment is its kind in lower case, short for a project, and the whole number as
/// it was read, whatever code-alongs are spoken of beside it. So two codes of one kind are equal
/// exactly where the numbers are, and the case of the kind does not matter.
pub proof fn law_assignment_codes(
    groups: Seq<Option<Seq<char>>>,
    other: Seq<Option<Seq<char>>>,
    week: Option<Seq<Option<Seq<char>>>>,
    other_week: Option<Seq<Option<Seq<char>>>>,
)
    requires
        fills(groups, 3, -1),
        fills(other, 3, -1),
    ensures
        code_of_groups(Some(groups), week) matches Some(code) && {
            let kind = groups[1]->0;
            let number = groups[2]->0;
            let short = ascii_lowercase(kind).len() >= 4 && ascii_lowercase(kind).take(4) == seq![
                'p',
                'r',
                'o',
                'j',
            ];
            &&& !short ==> code == ascii_lowercase(kind) + number
            &&& short ==> code == seq!['p', 'r', 'o', 'j'] + number
        },
        ascii_lowercase(groups[1]->0) == ascii_lowercase(other[1]->0) ==> (code_of_groups(
            Some(groups),
            week,
        ) == code_of_groups(Some(other), other_week) <==> groups[2] == other[2]),
{
    reveal_strlit("proj");
    assert(groups[1] is Some && groups[2] is Some && other[1] is Some && other[2] is Some);
    assert("proj"@ =~= seq!['p', 'r', 'o', 'j']);
    let lower = ascii_lowercase(groups[1]->0);
    if lower.len() >= 4 {
        assert(lower.subrange(0, 4) =~= lower.take(4));
    }
    let kind = code_kind(groups[1]->0);
    if ascii_lowercase(groups[1]->0) == ascii_lowercase(other[1]->0) && kind + groups[2]->0 == kind
        + other[2]->0 {
        lemma_same_start(kind, groups[2]->0, other[2]->0);
    }
}

/// A text has the code of its assignment, where it speaks of one, else that of its code-alongs,
/// where it speaks of those, and no other.
pub proof fn law_code_of_text(text: Seq<char>)
    ensures
        code_of(text) is Some <==> first_groups(ASSIGNMENT_CODE@, text) is Some || first_groups(
            WEEK_CODE@,
            text,
        ) is Some,
        first_groups(ASSIGNMENT_CODE@, text) is Some ==> code_of(text) == code_of_groups(
            first_groups(ASSIGNMENT_CODE@, text),
            None,
        ),
        first_groups(ASSIGNMENT_CODE@, text) is None ==> code_of(text) == code_of_groups(
            None,
            first_groups(WEEK_CODE@, text),
        ),
{
}

/// A manual identity copies a source exactly where it is the fixed word and 64 hexadecimal digits,
/// and the source has them in lower case.
pub proof fn law_copied_source(manual: Seq<char>, rest: Seq<char>)
    ensures
        manual == "source_key:"@ + rest && rest.len() == 64 && (forall|i: int|
            0 <= i < rest.len() ==> '0' <= #[trigger] rest[i] <= '9' || 'a' <= rest[i] <= 'f'
                || 'A' <= rest[i] <= 'F') ==> copied_source(manual) == Some(ascii_lowercase(rest)),
        copied_source(manual) is Some ==> exists|digits: Seq<char>|
            #![trigger digits.len()]
            manual == "source_key:"@ + digits && digits.len() == 64 && copied_source(manual)
                == Some(ascii_lowercase(digits)) && forall|i: int|
                0 <= i < digits.len() ==> '0' <= #[trigger] digits[i] <= '9' || 'a' <= digits[i]
                    <= 'f' || 'A' <= digits[i] <= 'F',
{
    let word = "source_key:"@;
    law_prefix(manual, word, rest);
    if manual == word + rest {
        assert(forall|i: int|
            0 <= i < rest.len() && ('0' <= #[trigger] rest[i] <= '9' || 'a' <= rest[i] <= 'f'
                || 'A' <= rest[i] <= 'F') ==> is_hex_digit(rest[i]));
    }
    if copied_source(manual) is Some {
        let digits = without_prefix(manual, word)->0;
        law_prefix(manual, word, digits);
        assert forall|i: int| 0 <= i < digits.len() implies '0' <= #[trigger] digits[i] <= '9'
            || 'a' <= digits[i] <= 'f' || 'A' <= digits[i] <= 'F' by {
            assert(is_hex_digit(digits[i]));
        }
        assert(digits.len() == 64);
    }
}

/// What a source is known by tells sources apart: by the manual identity but for white space and
/// case, else by the code, else by the addresses of the links in order, else by the text without
/// its deadline but for white space and case. Sources that are known by different things are
/// different.
pub proof fn law_bases_are_told_apart(
    text: Seq<char>,
    links: Seq<LinkView>,
    manual: Option<Seq<char>>,
    code: Option<Seq<char>>,
    other_text: Seq<char>,
    other_links: Seq<LinkView>,
    other_manual: Option<Seq<char>>,
    other_code: Option<Seq<char>>,
)
    requires
        basis_of(text, links, manual, code) == basis_of(
            other_text,
            other_links,
            other_manual,
            other_code,
        ),
    ensures
        manual is Some <==> other_manual is Some,
        manual is Some ==> unicode_lowercase(normalized(manual->0)) == unicode_lowercase(
            normalized(other_manual->0),
        ),
        manual is None ==> code == other_code,
        manual is None && code is None ==> (links.len() == 0 <==> other_links.len() == 0),
        manual is None && code is None && links.len() > 0 ==> joined(
            ordered(urls_of(links), own_text()),
            "\n"@,
        ) == joined(ordered(urls_of(other_links), own_text()), "\n"@),
        manual is None && code is None && links.len() == 0 ==> unicode_lowercase(
            normalized(with_first_replaced(DUE_TAIL@, text, ""@)),
        ) == unicode_lowercase(normalized(with_first_replaced(DUE_TAIL@, other_text, ""@))),
{
    reveal_strlit("manual:");
    reveal_strlit("code:");
    reveal_strlit("links:");
    reveal_strlit("text:");
    let a = basis_of(text, links, manual, code);
    let b = basis_of(other_text, other_links, other_manual, other_code);
    assert(a[0] == b[0]);
    if manual is Some {
        lemma_same_start(
            "manual:"@,
            unicode_lowercase(normalized(manual->0)),
            unicode_lowercase(normalized(other_manual->0)),
        );
    } else if code is Some {
        lemma_same_start("code:"@, code->0, other_code->0);
    } else if links.len() > 0 {
        lemma_same_start(
            "links:"@,
            joined(ordered(urls_of(links), own_text()), "\n"@),
            joined(ordered(urls_of(other_links), own_text()), "\n"@),
        );
    } else {
        lemma_same_start(
            "text:"@,
            unicode_lowercase(normalized(with_first_replaced(DUE_TAIL@, text, ""@))),
            unicode_lowercase(normalized(with_first_replaced(DUE_TAIL@, other_text, ""@))),
        );
    }
}

/// Addresses without line breaks that are joined line by line are told apart.
proof fn lemma_joined_lines(a: Seq<Seq<char>>, b: Seq<Seq<char>>)
    requires
        a.len() > 0,
        b.len() > 0,
        joined(a, "\n"@) == joined(b, "\n"@),
        forall|i: int| 0 <= i < a.len() ==> !(#[trigger] a[i]).contains('\n'),
        forall|i: int| 0 <= i < b.len() ==> !(#[trigger] b[i]).contains('\n'),
    ensures
        a == b,
    decreases a.len(),
{
    reveal_strlit("\n");
    let x = joined(a, "\n"@);
    if a.len() == 1 && b.len() == 1 {
        assert(a =~= seq![a[0]] && b =~= seq![b[0]]);
        assert(a =~= b);
    } else if a.len() == 1 {
        let front = joined(b.drop_last(), "\n"@);
        assert(x[front.len() as int] == '\n');
        assert(a[0].contains(x[front.len() as int]));
    } else if b.len() == 1 {
        let front = joined(a.drop_last(), "\n"@);
        assert(x[front.len() as int] == '\n');
        assert(b[0].contains(x[front.len() as int]));
    } else {
        let front = joined(a.drop_last(), "\n"@);
        let start = joined(b.drop_last(), "\n"@);
        let last = a.last();
        let end = b.last();
        assert(a[a.len() - 1] == last && b[b.len() - 1] == end);
        assert(x == front + "\n"@ + last);
        assert(x == start + "\n"@ + end);
        assert("\n"@.len() == 1 && "\n"@[0] == '\n');
        assert(x.len() == front.len() + 1 + last.len());
        assert(x.len() == start.len() + 1 + end.len());
        if front.len() < start.len() {
            assert(x[start.len() as int] == '\n');
            assert(last[start.len() - front.len() - 1] == '\n');
            assert(last.contains(last[start.len() - front.len() - 1]));
        } else if start.len() < front.len() {
            assert(x[front.len() as int] == '\n');
            assert(end[front.len() - start.len() - 1] == '\n');
            assert(end.contains(end[front.len() - start.len() - 1]));
        }
        assert(front =~= x.take(front.len() as int));
        assert(start =~= x.take(start.len() as int));
        assert(last =~= x.skip(front.len() as int + 1));
        assert(end =~= x.skip(start.len() as int + 1));
        assert(forall|i: int| 0 <= i < a.drop_last().len() ==> a.drop_last()[i] == #[trigger] a[i]);
        assert(forall|i: int| 0 <= i < b.drop_last().len() ==> b.drop_last()[i] == #[trigger] b[i]);
        lemma_joined_lines(a.drop_last(), b.drop_last());
        assert(a =~= a.drop_last().push(last));
        assert(b =~= b.drop_last().push(end));
    }
}

/// Sources that are known by their links are told apart by the addresses, each as often as it
/// comes: the same basis means the same addresses.
pub proof fn law_link_bases_are_told_apart(
    text: Seq<char>,
    links: Seq<LinkView>,
    other_text: Seq<char>,
    other_links: Seq<LinkView>,
)
    requires
        links.len() > 0,
        other_links.len() > 0,
        forall|i: int| 0 <= i < links.len() ==> !(#[trigger] links[i]).url.contains('\n'),
        forall|i: int|
            0 <= i < other_links.len() ==> !(#[trigger] other_links[i]).url.contains('\n'),
        basis_of(text, links, None, None) == basis_of(other_text, other_links, None, None),
    ensures
        links.map_values(|link: LinkView| link.url).to_multiset() == other_links.map_values(
            |link: LinkView| link.url,
        ).to_multiset(),
{
    broadcast use vstd::seq_lib::group_to_multiset_ensures;

    law_bases_are_told_apart(text, links, None, None, other_text, other_links, None, None);
    let urls = urls_of(links);
    let others = urls_of(other_links);
    law_ordered(urls, own_text());
    law_ordered(others, own_text());
    let a = ordered(urls, own_text());
    let b = ordered(others, own_text());
    assert forall|i: int| 0 <= i < a.len() implies !(#[trigger] a[i]).contains('\n') by {
        assert(a.to_multiset().contains(a[i]));
        assert(urls.contains(a[i]));
        let k = choose|k: int| 0 <= k < urls.len() && urls[k] == a[i];
        assert(links[k].url == a[i]);
    }
    assert forall|i: int| 0 <= i < b.len() implies !(#[trigger] b[i]).contains('\n') by {
        assert(b.to_multiset().contains(b[i]));
        assert(others.contains(b[i]));
        let k = choose|k: int| 0 <= k < others.len() && others[k] == b[i];
        assert(other_links[k].url == b[i]);
    }
    lemma_joined_lines(a, b);
    assert(links.map_values(|link: LinkView| link.url) =~= urls);
    assert(other_links.map_values(|link: LinkView| link.url) =~= others);
}

/// Sources that are not copied by hand have the same identity only where what they are known by
/// has the same digest, behind the name of the feed. And the same basis makes the same identity.
pub proof fn law_source_keys_are_told_apart(
    text: Seq<char>,
    links: Seq<LinkView>,
    manual: Option<Seq<char>>,
    code: Option<Seq<char>>,
    other_text: Seq<char>,
    other_links: Seq<LinkView>,
    other_manual: Option<Seq<char>>,
    other_code: Option<Seq<char>>,
)
    requires
        manual matches Some(manual) ==> copied_source(manual) is None,
        other_manual matches Some(manual) ==> copied_source(manual) is None,
    ensures
        coded_source_key(text, links, manual, code) == coded_source_key(
            other_text,
            other_links,
            other_manual,
            other_code,
        ) <==> sha256_hex(
            "chronatello\ndata385\nfall-2026\n"@ + basis_of(text, links, manual, code),
        ) == sha256_hex(
            "chronatello\ndata385\nfall-2026\n"@ + basis_of(
                other_text,
                other_links,
                other_manual,
                other_code,
            ),
        ),
{
}

} // verus!
