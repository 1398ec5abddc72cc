//! Reads the items of the schedule from its page.

use vstd::prelude::*;
use vstd::string::*;

use crate::digest::{digest, is_digest, sha256_hex};
use crate::evidence::{row_date_problem, validate_meeting_date};
use crate::identity::{source_key, source_key_of};
use crate::json::{quote, quoted};
use crate::model::{
    check_view, failure, plain_failure, result_view, Candidate, CandidateKind, CandidateView,
    Error, ErrorKind, ErrorView, LinkView, SourceLink, MODEL, SCHEDULE_URL, SCHEMA_VERSION,
};
use crate::overrides::{looked_up, Overrides};
use crate::page::{
    document_tables, fragment_of, read_fragment, read_tables, Anchor, AnchorView, Cell, CellView,
    Fragment, FragmentView, Table, TableView, ANCHORS, CELLS, HEADERS, ROWS, TABLES,
};
use crate::pattern::{first_match, is_match, pieces, split, DUE_MARKER, SEGMENT_END};
use crate::stability::have_own_sources;
use crate::text::{
    concat, concat3, decimal, decimal_text, has_part, is_reduced, is_space, join, joined,
    law_first_is_replaced, law_has_part, law_joined, law_normalized, law_nothing_to_replace, lemma_cut_at_mark,
    lemma_same_start, normalize, normalized, opt_view, replace_part, replaced, same_text,
    stands_at, views,
};
use crate::web::{
    has_web_scheme, is_web_scheme, reference_of, resolve, without_fragment, Target,
};

verus! {

/// The header texts of the schedule table.
pub open spec fn expected_headers() -> Seq<Seq<char>> {
    seq!["Week"@, "Date"@, "Topic"@, "Prepare"@, "Materials"@, "In Class"@, "Assignments"@]
}

/// The header texts with their white space reduced.
pub open spec fn normalized_all(texts: Seq<Seq<char>>) -> Seq<Seq<char>> {
    texts.map_values(|text: Seq<char>| normalized(text))
}

/// Whether a table has the headers of the schedule.
pub open spec fn is_schedule(table: TableView) -> bool {
    normalized_all(table.headers) == expected_headers()
}

/// The first table that has the headers of the schedule.
pub open spec fn first_schedule(tables: Seq<TableView>) -> Option<TableView>
    decreases tables.len(),
{
    if tables.len() == 0 {
        None
    } else if is_schedule(tables[0]) {
        Some(tables[0])
    } else {
        first_schedule(tables.skip(1))
    }
}

/// Tells whether a header has an expected text.
fn is_header(headers: &Vec<String>, at: usize, expected: &str) -> (r: bool)
    requires
        at < headers@.len(),
    ensures
        r == (normalized_all(views(headers@))[at as int] == expected@),
{
    let text: String = normalize(headers[at].as_str());
    same_text(text.as_str(), expected)
}

/// Tells whether a table has the headers of the schedule.
fn has_expected_headers(table: &Table) -> (r: bool)
    ensures
        r == is_schedule(table@),
{
    let headers: &Vec<String> = &table.headers;
    let ghost found = normalized_all(views(headers@));
    if headers.len() != 7 {
        assert(found.len() != expected_headers().len());
        return false;
    }
    let same: bool = is_header(headers, 0, "Week") && is_header(headers, 1, "Date") && is_header(
        headers,
        2,
        "Topic",
    ) && is_header(headers, 3, "Prepare") && is_header(headers, 4, "Materials") && is_header(
        headers,
        5,
        "In Class",
    ) && is_header(headers, 6, "Assignments");
    if same {
        assert(found =~= expected_headers());
    } else {
        let ghost expected = expected_headers();
        assert(found[0] != expected[0] || found[1] != expected[1] || found[2] != expected[2]
            || found[3] != expected[3] || found[4] != expected[4] || found[5] != expected[5]
            || found[6] != expected[6]);
    }
    same
}

/// The date of a row: the text of its first date cell.
pub open spec fn row_date_of(row: Seq<CellView>) -> Option<Seq<char>>
    decreases row.len(),
{
    if row.len() == 0 {
        None
    } else if row[0].column == Some("date"@) {
        if normalized(row[0].text).len() > 0 {
            Some(normalized(row[0].text))
        } else {
            None
        }
    } else {
        row_date_of(row.skip(1))
    }
}

/// Tells whether a cell stands in a column.
fn is_in_column(cell: &Cell, column: &str) -> (r: bool)
    ensures
        r == (cell@.column == Some(column@)),
{
    match &cell.column {
        Some(name) => same_text(name.as_str(), column),
        None => false,
    }
}

/// Finds the date of a row.
fn find_row_date(row: &Vec<Cell>) -> (r: Option<String>)
    ensures
        opt_view(r) == row_date_of(views(row@)),
{
    let ghost all = views(row@);
    let mut i: usize = 0;
    assert(all.skip(0) =~= all);
    while i < row.len()
        invariant
            all == views(row@),
            i <= row@.len(),
            row_date_of(all) == row_date_of(all.skip(i as int)),
        decreases row@.len() - i,
    {
        assert(all.skip(i as int)[0] == row@[i as int]@);
        assert(all.skip(i as int).skip(1) =~= all.skip(i + 1));
        if is_in_column(&row[i], "date") {
            let date: String = normalize(row[i].text.as_str());
            return if date.as_str().is_empty() {
                None
            } else {
                Some(date)
            };
        }
        i = i + 1;
    }
    None
}

/// The kind of the items of a column, where it has any.
pub open spec fn column_kind(column: Option<Seq<char>>) -> Option<CandidateKind> {
    if column == Some("assignments"@) {
        Some(CandidateKind::Assignment)
    } else if column == Some("in_class"@) {
        Some(CandidateKind::InClass)
    } else {
        None
    }
}

/// Tells the kind of the items of a cell.
fn kind_of_cell(cell: &Cell) -> (r: Option<CandidateKind>)
    ensures
        r == column_kind(cell@.column),
{
    proof {
        reveal_strlit("assignments");
        reveal_strlit("in_class");
    }
    if is_in_column(cell, "assignments") {
        Some(CandidateKind::Assignment)
    } else if is_in_column(cell, "in_class") {
        Some(CandidateKind::InClass)
    } else {
        None
    }
}

/// A reference with slashes in place of backslashes, and without a doubled slash behind a dot.
pub open spec fn cleaned(href: Seq<char>) -> Seq<char> {
    replaced(replaced(href, "\\"@, "/"@), ".//"@, "./"@)
}

/// Cleans a reference.
fn clean(href: &str) -> (r: String)
    ensures
        r@ == cleaned(href@),
{
    proof {
        reveal_strlit("\\");
        reveal_strlit(".//");
    }
    let slashed: String = replace_part(href, "\\", "/");
    replace_part(slashed.as_str(), ".//", "./")
}

/// The link that an anchor makes, the `index`th of its item, where its reference leads to an
/// address or to none. It leads to a page of the web.
pub open spec fn link_to(
    anchor: AnchorView,
    index: nat,
    target: Option<(Seq<char>, Seq<char>, Seq<char>)>,
) -> Result<LinkView, ErrorView> {
    match target {
        None => Err(failure(ErrorKind::InvalidSourceUrl, cleaned(anchor.href))),
        Some(target) => if is_web_scheme(target.0) {
            Ok(
                LinkView {
                    id: "link_"@ + decimal_text(index),
                    text: normalized(anchor.text),
                    url: target.2,
                },
            )
        } else {
            Err(failure(ErrorKind::UnsupportedSourceUrl, target.1))
        },
    }
}

/// An address with its page, the text without the fragment.
pub open spec fn with_page(address: Option<(Seq<char>, Seq<char>)>) -> Option<
    (Seq<char>, Seq<char>, Seq<char>),
> {
    match address {
        Some(address) => Some((address.0, address.1, without_fragment(address.1))),
        None => None,
    }
}

/// The link that an anchor makes, the `index`th of its item.
pub open spec fn link_from(anchor: AnchorView, index: nat) -> Result<LinkView, ErrorView> {
    link_to(anchor, index, with_page(reference_of(SCHEDULE_URL@, cleaned(anchor.href))))
}

/// Makes the link of an anchor whose reference leads to an address or to none.
pub fn make_link_to(anchor: &Anchor, index: usize, target: Option<Target>) -> (r: Result<
    SourceLink,
    Error,
>)
    ensures
        result_view(r) == link_to(anchor@, index as nat, opt_view(target)),
{
    match target {
        None => {
            let href: String = clean(anchor.href.as_str());
            Err(Error::about(ErrorKind::InvalidSourceUrl, href.as_str()))
        },
        Some(target) => {
            if !has_web_scheme(target.scheme.as_str()) {
                return Err(Error::about(ErrorKind::UnsupportedSourceUrl, target.text.as_str()));
            }
            let number: String = decimal(index as u64);
            Ok(
                SourceLink {
                    id: concat("link_", number.as_str()),
                    text: normalize(anchor.text.as_str()),
                    url: target.page,
                },
            )
        },
    }
}

/// Makes the link of an anchor.
fn make_link(anchor: &Anchor, index: usize) -> (r: Result<SourceLink, Error>)
    ensures
        result_view(r) == link_from(anchor@, index as nat),
{
    let href: String = clean(anchor.href.as_str());
    make_link_to(anchor, index, resolve(SCHEDULE_URL, href.as_str()))
}

/// The links that the anchors make, in order, or the first failure.
pub open spec fn links_from(anchors: Seq<AnchorView>) -> Result<Seq<LinkView>, ErrorView>
    decreases anchors.len(),
{
    if anchors.len() == 0 {
        Ok(seq![])
    } else {
        match links_from(anchors.drop_last()) {
            Err(error) => Err(error),
            Ok(links) => match link_from(anchors.last(), (anchors.len() - 1) as nat) {
                Err(error) => Err(error),
                Ok(link) => Ok(links.push(link)),
            },
        }
    }
}

/// A failure of the first anchors is the failure of all of them.
proof fn lemma_links_first(anchors: Seq<AnchorView>, at: int)
    requires
        0 <= at <= anchors.len(),
        links_from(anchors.take(at)) is Err,
    ensures
        links_from(anchors) == links_from(anchors.take(at)),
    decreases anchors.len() - at,
{
    if at < anchors.len() {
        assert(anchors.take(at + 1).drop_last() =~= anchors.take(at));
        lemma_links_first(anchors, at + 1);
    } else {
        assert(anchors.take(at) =~= anchors);
    }
}

/// Makes the links of anchors.
fn make_links(anchors: &Vec<Anchor>) -> (r: Result<Vec<SourceLink>, Error>)
    ensures
        list_view(r) == links_from(views(anchors@)),
{
    let ghost all = views(anchors@);
    let mut links: Vec<SourceLink> = Vec::new();
    let mut i: usize = 0;
    assert(views(links@) =~= seq![]);
    while i < anchors.len()
        invariant
            all == views(anchors@),
            i <= anchors@.len(),
            links_from(all.take(i as int)) == Ok::<_, ErrorView>(views(links@)),
        decreases anchors@.len() - i,
    {
        let ghost before = views(links@);
        assert(all.take(i + 1).drop_last() =~= all.take(i as int));
        assert(all.take(i + 1).last() == anchors@[i as int]@);
        match make_link(&anchors[i], i) {
            Err(error) => {
                proof {
                    lemma_links_first(all, i + 1);
                }
                return Err(error);
            },
            Ok(link) => {
                links.push(link);
                assert(views(links@) =~= before.push(link@));
            },
        }
        i = i + 1;
    }
    assert(all.take(i as int) =~= all);
    Ok(links)
}

/// A link as a JSON object.
pub open spec fn link_json(link: LinkView) -> Seq<char> {
    "{\"id\":"@ + quoted(link.id) + ",\"text\":"@ + quoted(link.text) + ",\"url\":"@ + quoted(
        link.url,
    ) + "}"@
}

/// Links as a JSON array.
pub open spec fn links_json(links: Seq<LinkView>) -> Seq<char> {
    "["@ + joined(links.map_values(|link: LinkView| link_json(link)), ","@) + "]"@
}

/// Writes a link as a JSON object.
fn write_link(link: &SourceLink) -> (r: String)
    ensures
        r@ == link_json(link@),
{
    let mut out: String = concat("{\"id\":", quote(link.id.as_str()).as_str());
    out.append(",\"text\":");
    out.append(quote(link.text.as_str()).as_str());
    out.append(",\"url\":");
    out.append(quote(link.url.as_str()).as_str());
    out.append("}");
    out
}

/// Writes links as a JSON array.
pub fn write_links(links: &Vec<SourceLink>) -> (r: String)
    ensures
        r@ == links_json(views(links@)),
{
    let ghost all = views(links@).map_values(|link: LinkView| link_json(link));
    let mut parts: Vec<String> = Vec::new();
    let mut i: usize = 0;
    while i < links.len()
        invariant
            all == views(links@).map_values(|link: LinkView| link_json(link)),
            i <= links@.len(),
            views(parts@) =~= all.take(i as int),
        decreases links@.len() - i,
    {
        let ghost before = views(parts@);
        parts.push(write_link(&links[i]));
        assert(views(parts@) =~= before.push(all[i as int]));
        i = i + 1;
    }
    assert(all.take(i as int) =~= all);
    let list: String = join(&parts, ",");
    concat3("[", list.as_str(), "]")
}

/// The version of the instructions that the model is given.
pub const PROMPT_VERSION: &'static str = "2";

/// The name of a kind.
pub open spec fn kind_name(kind: CandidateKind) -> Seq<char> {
    match kind {
        CandidateKind::Assignment => "Assignment"@,
        CandidateKind::InClass => "InClass"@,
    }
}

/// All that the event of an item depends on, one fact a line: the model, the versions, the kind,
/// the date of the row, the text and the links.
pub open spec fn fingerprint_basis(
    kind: CandidateKind,
    row_date: Seq<char>,
    text: Seq<char>,
    links: Seq<LinkView>,
) -> Seq<char> {
    "model="@ + MODEL@ + "\nprompt="@ + PROMPT_VERSION@ + "\nschema="@ + decimal_text(
        SCHEMA_VERSION as nat,
    ) + "\nkind="@ + kind_name(kind) + "\nrow="@ + row_date + "\ntext="@ + text + "\nlinks="@
        + links_json(links)
}

/// Makes the fingerprint of an item.
fn make_fingerprint(
    kind: CandidateKind,
    row_date: &str,
    text: &str,
    links: &Vec<SourceLink>,
) -> (r: String)
    ensures
        r@ == sha256_hex(fingerprint_basis(kind, row_date@, text@, views(links@))),
        is_digest(r@),
{
    let mut basis: String = concat3("model=", MODEL, "\nprompt=");
    basis.append(PROMPT_VERSION);
    basis.append("\nschema=");
    basis.append(decimal(SCHEMA_VERSION as u64).as_str());
    basis.append("\nkind=");
    basis.append(
        match kind {
            CandidateKind::Assignment => "Assignment",
            CandidateKind::InClass => "InClass",
        },
    );
    basis.append("\nrow=");
    basis.append(row_date);
    basis.append("\ntext=");
    basis.append(text);
    basis.append("\nlinks=");
    basis.append(write_links(links).as_str());
    digest(basis.as_str())
}

/// The item that a piece of a cell makes: none where it holds no text, or where it comes from the
/// column of what is done in class and speaks of no deadline.
pub open spec fn item_from(
    fragment: FragmentView,
    kind: CandidateKind,
    row_date: Seq<char>,
    overrides: Map<Seq<char>, Seq<char>>,
) -> Result<Option<CandidateView>, ErrorView> {
    let text = normalized(fragment.text);
    if text.len() == 0 || (kind == CandidateKind::InClass && first_match(
        DUE_MARKER@,
        text,
    ) is None) {
        Ok(None)
    } else {
        match links_from(fragment.anchors) {
            Err(error) => Err(error),
            Ok(links) => Ok(
                Some(
                    CandidateView {
                        source_key: source_key_of(text, links, looked_up(overrides, text)),
                        fingerprint: sha256_hex(fingerprint_basis(kind, row_date, text, links)),
                        source_text: text,
                        row_date,
                        links,
                        kind,
                    },
                ),
            ),
        }
    }
}

/// What an item came to, by view.
pub open spec fn item_view(result: Result<Option<Candidate>, Error>) -> Result<
    Option<CandidateView>,
    ErrorView,
> {
    match result {
        Ok(item) => Ok(opt_view(item)),
        Err(error) => Err(error@),
    }
}

/// What a list came to, by view.
pub open spec fn list_view<T: View>(result: Result<Vec<T>, Error>) -> Result<Seq<T::V>, ErrorView> {
    match result {
        Ok(items) => Ok(views(items@)),
        Err(error) => Err(error@),
    }
}

/// Makes the item of a piece of a cell.
pub fn candidate_from_fragment(
    fragment: &Fragment,
    kind: CandidateKind,
    row_date: &str,
    overrides: &Overrides,
) -> (r: Result<Option<Candidate>, Error>)
    ensures
        item_view(r) == item_from(fragment@, kind, row_date@, overrides@),
        r matches Ok(Some(item)) ==> is_digest(item.source_key@) && is_digest(item.fingerprint@),
{
    let text: String = normalize(fragment.text.as_str());
    if text.as_str().is_empty() || (kind == CandidateKind::InClass && !is_match(
        DUE_MARKER,
        text.as_str(),
    )) {
        return Ok(None);
    }
    match make_links(&fragment.anchors) {
        Err(error) => Err(error),
        Ok(links) => {
            let manual: Option<String> = overrides.get(text.as_str());
            Ok(
                Some(
                    Candidate {
                        source_key: source_key(text.as_str(), &links, &manual),
                        fingerprint: make_fingerprint(kind, row_date, text.as_str(), &links),
                        source_text: text,
                        row_date: row_date.to_owned(),
                        links,
                        kind,
                    },
                ),
            )
        },
    }
}

/// The items that the pieces of a cell make, in order, or the first failure.
pub open spec fn piece_items(
    parts: Seq<Seq<char>>,
    kind: CandidateKind,
    row_date: Seq<char>,
    overrides: Map<Seq<char>, Seq<char>>,
) -> Result<Seq<CandidateView>, ErrorView>
    decreases parts.len(),
{
    if parts.len() == 0 {
        Ok(seq![])
    } else {
        match piece_items(parts.drop_last(), kind, row_date, overrides) {
            Err(error) => Err(error),
            Ok(items) => match item_from(
                fragment_of(parts.last(), ANCHORS@, "href"@),
                kind,
                row_date,
                overrides,
            ) {
                Err(error) => Err(error),
                Ok(None) => Ok(items),
                Ok(Some(item)) => Ok(items.push(item)),
            },
        }
    }
}

/// A failure of the first pieces is the failure of all of them.
proof fn lemma_pieces_first(
    parts: Seq<Seq<char>>,
    kind: CandidateKind,
    row_date: Seq<char>,
    overrides: Map<Seq<char>, Seq<char>>,
    at: int,
)
    requires
        0 <= at <= parts.len(),
        piece_items(parts.take(at), kind, row_date, overrides) is Err,
    ensures
        piece_items(parts, kind, row_date, overrides) == piece_items(
            parts.take(at),
            kind,
            row_date,
            overrides,
        ),
    decreases parts.len() - at,
{
    if at < parts.len() {
        assert(parts.take(at + 1).drop_last() =~= parts.take(at));
        lemma_pieces_first(parts, kind, row_date, overrides, at + 1);
    } else {
        assert(parts.take(at) =~= parts);
    }
}

/// Makes the items of the pieces of a cell.
fn collect_pieces(
    parts: &Vec<String>,
    kind: CandidateKind,
    row_date: &str,
    overrides: &Overrides,
) -> (r: Result<Vec<Candidate>, Error>)
    ensures
        list_view(r) == piece_items(views(parts@), kind, row_date@, overrides@),
{
    let ghost all = views(parts@);
    let mut items: Vec<Candidate> = Vec::new();
    let mut i: usize = 0;
    assert(views(items@) =~= seq![]);
    while i < parts.len()
        invariant
            all == views(parts@),
            i <= parts@.len(),
            piece_items(all.take(i as int), kind, row_date@, overrides@) == Ok::<_, ErrorView>(
                views(items@),
            ),
        decreases parts@.len() - i,
    {
        let ghost before = views(items@);
        assert(all.take(i + 1).drop_last() =~= all.take(i as int));
        assert(all.take(i + 1).last() == parts@[i as int]@);
        let fragment: Fragment = read_fragment(parts[i].as_str(), ANCHORS, "href");
        match candidate_from_fragment(&fragment, kind, row_date, overrides) {
            Err(error) => {
                proof {
                    lemma_pieces_first(all, kind, row_date@, overrides@, i + 1);
                }
                return Err(error);
            },
            Ok(None) => {},
            Ok(Some(item)) => {
                items.push(item);
                assert(views(items@) =~= before.push(item@));
            },
        }
        i = i + 1;
    }
    assert(all.take(i as int) =~= all);
    Ok(items)
}

/// The items that the cells of a row make, in order, or the first failure.
pub open spec fn cell_items(
    cells: Seq<CellView>,
    row_date: Seq<char>,
    overrides: Map<Seq<char>, Seq<char>>,
) -> Result<Seq<CandidateView>, ErrorView>
    decreases cells.len(),
{
    if cells.len() == 0 {
        Ok(seq![])
    } else {
        match cell_items(cells.drop_last(), row_date, overrides) {
            Err(error) => Err(error),
            Ok(items) => match column_kind(cells.last().column) {
                None => Ok(items),
                Some(kind) => match piece_items(
                    pieces(SEGMENT_END@, cells.last().html),
                    kind,
                    row_date,
                    overrides,
                ) {
                    Err(error) => Err(error),
                    Ok(more) => Ok(items + more),
                },
            },
        }
    }
}

/// A failure of the first cells is the failure of all of them.
proof fn lemma_cells_first(
    cells: Seq<CellView>,
    row_date: Seq<char>,
    overrides: Map<Seq<char>, Seq<char>>,
    at: int,
)
    requires
        0 <= at <= cells.len(),
        cell_items(cells.take(at), row_date, overrides) is Err,
    ensures
        cell_items(cells, row_date, overrides) == cell_items(cells.take(at), row_date, overrides),
    decreases cells.len() - at,
{
    if at < cells.len() {
        assert(cells.take(at + 1).drop_last() =~= cells.take(at));
        lemma_cells_first(cells, row_date, overrides, at + 1);
    } else {
        assert(cells.take(at) =~= cells);
    }
}

/// Moves items behind others.
fn add_items(items: &mut Vec<Candidate>, more: Vec<Candidate>)
    ensures
        views(final(items)@) == views(old(items)@) + views(more@),
{
    let ghost before = views(items@);
    let ghost all = views(more@);
    for item in it: more
        invariant
            it.seq() == more@,
            all == views(more@),
            views(items@) =~= before + all.take(it.index()),
    {
        let ghost held = views(items@);
        assert(all[it.index()] == item@);
        items.push(item);
        assert(views(items@) =~= held.push(item@));
    }
    assert(all.take(all.len() as int) =~= all);
}

/// Makes the items of the cells of a row.
fn collect_cells(cells: &Vec<Cell>, row_date: &str, overrides: &Overrides) -> (r: Result<
    Vec<Candidate>,
    Error,
>)
    ensures
        list_view(r) == cell_items(views(cells@), row_date@, overrides@),
{
    let ghost all = views(cells@);
    let mut items: Vec<Candidate> = Vec::new();
    let mut i: usize = 0;
    assert(views(items@) =~= seq![]);
    while i < cells.len()
        invariant
            all == views(cells@),
            i <= cells@.len(),
            cell_items(all.take(i as int), row_date@, overrides@) == Ok::<_, ErrorView>(
                views(items@),
            ),
        decreases cells@.len() - i,
    {
        assert(all.take(i + 1).drop_last() =~= all.take(i as int));
        assert(all.take(i + 1).last() == cells@[i as int]@);
        match kind_of_cell(&cells[i]) {
            None => {},
            Some(kind) => {
                let parts: Vec<String> = split(SEGMENT_END, cells[i].html.as_str());
                match collect_pieces(&parts, kind, row_date, overrides) {
                    Err(error) => {
                        proof {
                            lemma_cells_first(all, row_date@, overrides@, i + 1);
                        }
                        return Err(error);
                    },
                    Ok(more) => {
                        add_items(&mut items, more);
                    },
                }
            },
        }
        i = i + 1;
    }
    assert(all.take(i as int) =~= all);
    Ok(items)
}

/// The items that a row makes. A row has a date that the calendar has, on the weekday that it
/// names.
pub open spec fn row_items(row: Seq<CellView>, overrides: Map<Seq<char>, Seq<char>>) -> Result<
    Seq<CandidateView>,
    ErrorView,
> {
    match row_date_of(row) {
        None => Err(plain_failure(ErrorKind::RowWithoutDate)),
        Some(date) => match row_date_problem(date) {
            Some(error) => Err(error),
            None => cell_items(row, date, overrides),
        },
    }
}

/// Makes the items of a row.
fn collect_row(row: &Vec<Cell>, overrides: &Overrides) -> (r: Result<Vec<Candidate>, Error>)
    ensures
        list_view(r) == row_items(views(row@), overrides@),
{
    match find_row_date(row) {
        None => Err(Error::plain(ErrorKind::RowWithoutDate)),
        Some(date) => match validate_meeting_date(date.as_str()) {
            Err(error) => Err(error),
            Ok(_) => collect_cells(row, date.as_str(), overrides),
        },
    }
}

/// The items that rows make, in order, or the first failure.
pub open spec fn rows_items(
    rows: Seq<Seq<CellView>>,
    overrides: Map<Seq<char>, Seq<char>>,
) -> Result<Seq<CandidateView>, ErrorView>
    decreases rows.len(),
{
    if rows.len() == 0 {
        Ok(seq![])
    } else {
        match rows_items(rows.drop_last(), overrides) {
            Err(error) => Err(error),
            Ok(items) => match row_items(rows.last(), overrides) {
                Err(error) => Err(error),
                Ok(more) => Ok(items + more),
            },
        }
    }
}

/// A failure of the first rows is the failure of all of them.
proof fn lemma_rows_first(
    rows: Seq<Seq<CellView>>,
    overrides: Map<Seq<char>, Seq<char>>,
    at: int,
)
    requires
        0 <= at <= rows.len(),
        rows_items(rows.take(at), overrides) is Err,
    ensures
        rows_items(rows, overrides) == rows_items(rows.take(at), overrides),
    decreases rows.len() - at,
{
    if at < rows.len() {
        assert(rows.take(at + 1).drop_last() =~= rows.take(at));
        lemma_rows_first(rows, overrides, at + 1);
    } else {
        assert(rows.take(at) =~= rows);
    }
}

/// Makes the items of the rows of a table.
fn collect_rows(table: &Table, overrides: &Overrides) -> (r: Result<Vec<Candidate>, Error>)
    ensures
        list_view(r) == rows_items(table@.rows, overrides@),
{
    let rows: &Vec<Vec<Cell>> = &table.rows;
    let ghost all = table@.rows;
    let mut items: Vec<Candidate> = Vec::new();
    let mut i: usize = 0;
    assert(views(items@) =~= seq![]);
    while i < rows.len()
        invariant
            all == table@.rows,
            all == rows@.map_values(|row: Vec<Cell>| views(row@)),
            i <= rows@.len(),
            rows_items(all.take(i as int), overrides@) == Ok::<_, ErrorView>(views(items@)),
        decreases rows@.len() - i,
    {
        assert(all.take(i + 1).drop_last() =~= all.take(i as int));
        assert(all.take(i + 1).last() == views(rows@[i as int]@));
        match collect_row(&rows[i], overrides) {
            Err(error) => {
                proof {
                    lemma_rows_first(all, overrides@, i + 1);
                }
                return Err(error);
            },
            Ok(more) => {
                add_items(&mut items, more);
            },
        }
        i = i + 1;
    }
    assert(all.take(i as int) =~= all);
    Ok(items)
}

/// Whether an earlier item has the source of item `at`.
pub open spec fn repeats_source(items: Seq<CandidateView>, at: int) -> bool {
    exists|i: int| 0 <= i < at && (#[trigger] items[i]).source_key == items[at].source_key
}

/// What is wrong with the first items of a list: one that repeats the source of another.
pub open spec fn repeated_source(items: Seq<CandidateView>, count: int) -> Option<ErrorView>
    decreases count,
{
    if count <= 0 {
        None
    } else {
        match repeated_source(items, count - 1) {
            Some(error) => Some(error),
            None => if repeats_source(items, count - 1) {
                Some(failure(ErrorKind::DuplicateSource, items[count - 1].source_text))
            } else {
                None
            },
        }
    }
}

/// The items that tables make. Only the first table with the headers of the schedule counts. It
/// has to make an item, and no two items may have the same source.
pub open spec fn items_of_tables(
    tables: Seq<TableView>,
    overrides: Map<Seq<char>, Seq<char>>,
) -> Result<Seq<CandidateView>, ErrorView> {
    match first_schedule(tables) {
        None => Err(plain_failure(ErrorKind::TableNotFound)),
        Some(table) => match rows_items(table.rows, overrides) {
            Err(error) => Err(error),
            Ok(items) => if items.len() == 0 {
                Err(plain_failure(ErrorKind::NoCandidates))
            } else {
                match repeated_source(items, items.len() as int) {
                    Some(error) => Err(error),
                    None => Ok(items),
                }
            },
        },
    }
}

/// A repeated source among the first items is the failure of all of them.
proof fn lemma_repeated_first(items: Seq<CandidateView>, count: int, total: int)
    requires
        count <= total,
        repeated_source(items, count) is Some,
    ensures
        repeated_source(items, total) == repeated_source(items, count),
    decreases total - count,
{
    if count < total {
        lemma_repeated_first(items, count, total - 1);
    }
}

/// Looks for the source of an item among those before it.
fn has_repeated_source(items: &Vec<Candidate>, at: usize) -> (r: bool)
    requires
        at < items@.len(),
    ensures
        r == repeats_source(views(items@), at as int),
{
    let ghost all = views(items@);
    let mut i: usize = 0;
    while i < at
        invariant
            all == views(items@),
            i <= at < items@.len(),
            forall|k: int| 0 <= k < i ==> (#[trigger] all[k]).source_key != all[at as int].source_key,
        decreases at - i,
    {
        assert(all[i as int] == items@[i as int]@);
        assert(all[at as int] == items@[at as int]@);
        if items[i].source_key == items[at].source_key {
            return true;
        }
        i = i + 1;
    }
    false
}

/// Checks that no two items have the same source.
fn check_sources(items: &Vec<Candidate>) -> (r: Result<(), Error>)
    ensures
        check_view(r) == repeated_source(views(items@), items@.len() as int),
{
    let ghost all = views(items@);
    let mut i: usize = 0;
    while i < items.len()
        invariant
            all == views(items@),
            i <= items@.len(),
            repeated_source(all, i as int) is None,
        decreases items@.len() - i,
    {
        assert(all[i as int] == items@[i as int]@);
        if has_repeated_source(items, i) {
            proof {
                lemma_repeated_first(all, i + 1, items@.len() as int);
            }
            return Err(Error::about(ErrorKind::DuplicateSource, items[i].source_text.as_str()));
        }
        i = i + 1;
    }
    Ok(())
}

/// Makes the items of the tables of a page.
pub fn candidates_from_tables(tables: &Vec<Table>, overrides: &Overrides) -> (r: Result<
    Vec<Candidate>,
    Error,
>)
    ensures
        list_view(r) == items_of_tables(views(tables@), overrides@),
{
    let ghost all = views(tables@);
    let mut i: usize = 0;
    assert(all.skip(0) =~= all);
    while i < tables.len()
        invariant
            all == views(tables@),
            i <= tables@.len(),
            first_schedule(all) == first_schedule(all.skip(i as int)),
        decreases tables@.len() - i,
    {
        assert(all.skip(i as int)[0] == tables@[i as int]@);
        assert(all.skip(i as int).skip(1) =~= all.skip(i + 1));
        if has_expected_headers(&tables[i]) {
            return match collect_rows(&tables[i], overrides) {
                Err(error) => Err(error),
                Ok(items) => if items.len() == 0 {
                    Err(Error::plain(ErrorKind::NoCandidates))
                } else {
                    match check_sources(&items) {
                        Err(error) => Err(error),
                        Ok(_) => Ok(items),
                    }
                },
            };
        }
        i = i + 1;
    }
    Err(Error::plain(ErrorKind::TableNotFound))
}

/// The items of a schedule page.
pub open spec fn items_of_page(html: Seq<char>, overrides: Map<Seq<char>, Seq<char>>) -> Result<
    Seq<CandidateView>,
    ErrorView,
> {
    items_of_tables(
        document_tables(html, TABLES@, HEADERS@, ROWS@, CELLS@, "headers"@),
        overrides,
    )
}

/// Reads the items of a schedule page. Texts that are given an identity by hand have it.
pub fn extract_candidates_with_overrides(html: &str, overrides: &Overrides) -> (r: Result<
    Vec<Candidate>,
    Error,
>)
    ensures
        list_view(r) == items_of_page(html@, overrides@),
{
    let tables: Vec<Table> = read_tables(html, TABLES, HEADERS, ROWS, CELLS, "headers");
    candidates_from_tables(&tables, overrides)
}

/// Reads the items of a schedule page.
pub fn extract_candidates(html: &str) -> (r: Result<Vec<Candidate>, Error>)
    ensures
        list_view(r) == items_of_page(html@, Map::empty()),
{
    extract_candidates_with_overrides(html, &Overrides::new())
}

/// Whether the links are numbered from zero on and lead to pages of the web, without fragments.
pub open spec fn are_page_links(links: Seq<LinkView>) -> bool {
    forall|k: int|
        0 <= k < links.len() ==> {
            &&& (#[trigger] links[k]).id == "link_"@ + decimal_text(k as nat)
            &&& exists|href: Seq<char>| #[trigger]
                reference_of(SCHEDULE_URL@, href) matches Some(target) && is_web_scheme(target.0)
                    && links[k].url == without_fragment(target.1)
        }
}

/// Whether an item is as the schedule makes them: its text is reduced and not empty, it speaks of
/// a deadline where it comes from what is done in class, its row has a date that the calendar
/// has, its links are numbered and lead to pages of the web, and its identity and fingerprint are
/// made from these alone.
pub open spec fn is_schedule_item(
    item: CandidateView,
    overrides: Map<Seq<char>, Seq<char>>,
) -> bool {
    &&& item.source_text.len() > 0
    &&& is_reduced(item.source_text)
    &&& item.kind == CandidateKind::InClass ==> first_match(DUE_MARKER@, item.source_text) is Some
    &&& row_date_problem(item.row_date) is None
    &&& are_page_links(item.links)
    &&& item.source_key == source_key_of(
        item.source_text,
        item.links,
        looked_up(overrides, item.source_text),
    )
    &&& item.fingerprint == sha256_hex(
        fingerprint_basis(item.kind, item.row_date, item.source_text, item.links),
    )
}

/// Whether all items are as the schedule makes them.
pub open spec fn are_schedule_items(
    items: Seq<CandidateView>,
    overrides: Map<Seq<char>, Seq<char>>,
) -> bool {
    forall|i: int| 0 <= i < items.len() ==> is_schedule_item(#[trigger] items[i], overrides)
}

/// Links that anchors make are numbered and lead to pages of the web.
proof fn lemma_links_from(anchors: Seq<AnchorView>)
    ensures
        links_from(anchors) matches Ok(links) ==> links.len() == anchors.len() && are_page_links(
            links,
        ),
    decreases anchors.len(),
{
    if anchors.len() > 0 {
        let front = anchors.drop_last();
        lemma_links_from(front);
        if links_from(anchors) is Ok {
            let before = links_from(front)->Ok_0;
            let links = links_from(anchors)->Ok_0;
            assert forall|k: int| 0 <= k < links.len() implies {
                &&& (#[trigger] links[k]).id == "link_"@ + decimal_text(k as nat)
                &&& exists|href: Seq<char>| #[trigger]
                    reference_of(SCHEDULE_URL@, href) matches Some(target) && is_web_scheme(
                        target.0,
                    ) && links[k].url == without_fragment(target.1)
            } by {
                if k < before.len() {
                    assert(links[k] == before[k]);
                } else {
                    let href = cleaned(anchors.last().href);
                    assert(reference_of(SCHEDULE_URL@, href) is Some);
                }
            }
        }
    }
}

/// Items that pieces of cells make are as the schedule makes them.
proof fn lemma_piece_items(
    parts: Seq<Seq<char>>,
    kind: CandidateKind,
    row_date: Seq<char>,
    overrides: Map<Seq<char>, Seq<char>>,
)
    requires
        row_date_problem(row_date) is None,
    ensures
        piece_items(parts, kind, row_date, overrides) matches Ok(items) ==> are_schedule_items(
            items,
            overrides,
        ),
    decreases parts.len(),
{
    if parts.len() > 0 {
        lemma_piece_items(parts.drop_last(), kind, row_date, overrides);
        let fragment = fragment_of(parts.last(), ANCHORS@, "href"@);
        law_normalized(fragment.text);
        lemma_links_from(fragment.anchors);
    }
}

/// Items that cells make are as the schedule makes them.
proof fn lemma_cell_items(
    cells: Seq<CellView>,
    row_date: Seq<char>,
    overrides: Map<Seq<char>, Seq<char>>,
)
    requires
        row_date_problem(row_date) is None,
    ensures
        cell_items(cells, row_date, overrides) matches Ok(items) ==> are_schedule_items(
            items,
            overrides,
        ),
    decreases cells.len(),
{
    if cells.len() > 0 {
        lemma_cell_items(cells.drop_last(), row_date, overrides);
        let parts = pieces(SEGMENT_END@, cells.last().html);
        lemma_piece_items(parts, CandidateKind::Assignment, row_date, overrides);
        lemma_piece_items(parts, CandidateKind::InClass, row_date, overrides);
    }
}

/// Items that rows make are as the schedule makes them.
proof fn lemma_rows_items(rows: Seq<Seq<CellView>>, overrides: Map<Seq<char>, Seq<char>>)
    ensures
        rows_items(rows, overrides) matches Ok(items) ==> are_schedule_items(items, overrides),
    decreases rows.len(),
{
    if rows.len() > 0 {
        lemma_rows_items(rows.drop_last(), overrides);
        match row_date_of(rows.last()) {
            Some(date) => {
                if row_date_problem(date) is None {
                    lemma_cell_items(rows.last(), date, overrides);
                }
            },
            None => {},
        }
    }
}

/// Items without a repeated source among the first ones have their own sources.
proof fn lemma_own_sources(items: Seq<CandidateView>, count: int)
    requires
        0 <= count <= items.len(),
        repeated_source(items, count) is None,
    ensures
        have_own_sources(items, count),
    decreases count,
{
    if count > 0 {
        lemma_own_sources(items, count - 1);
    }
}

/// What is read from tables is never empty, every item of it is as the schedule makes them, and
/// no two items have the same source.
pub proof fn law_extracted_items(
    tables: Seq<TableView>,
    overrides: Map<Seq<char>, Seq<char>>,
    items: Seq<CandidateView>,
)
    requires
        items_of_tables(tables, overrides) == Ok::<_, ErrorView>(items),
    ensures
        items.len() > 0,
        are_schedule_items(items, overrides),
        have_own_sources(items, items.len() as int),
{
    let table = first_schedule(tables)->0;
    lemma_rows_items(table.rows, overrides);
    lemma_own_sources(items, items.len() as int);
}

/// Whether a result is no failure, and what it holds is among the items.
pub open spec fn is_held(
    result: Result<Option<CandidateView>, ErrorView>,
    items: Seq<CandidateView>,
) -> bool {
    match result {
        Ok(Some(item)) => items.contains(item),
        Ok(None) => true,
        Err(_) => false,
    }
}

/// What is held by items is held by more of them.
proof fn lemma_held_by_more(
    result: Result<Option<CandidateView>, ErrorView>,
    items: Seq<CandidateView>,
    more: Seq<CandidateView>,
)
    requires
        is_held(result, items),
    ensures
        is_held(result, items + more),
        is_held(result, more + items),
{
    match result {
        Ok(Some(item)) => {
            let k = choose|k: int| 0 <= k < items.len() && items[k] == item;
            assert((items + more)[k] == item);
            assert((more + items)[more.len() + k] == item);
        },
        _ => {},
    }
}

/// Each piece of a cell makes its item.
proof fn lemma_piece_held(
    parts: Seq<Seq<char>>,
    kind: CandidateKind,
    row_date: Seq<char>,
    overrides: Map<Seq<char>, Seq<char>>,
    at: int,
)
    requires
        0 <= at < parts.len(),
    ensures
        piece_items(parts, kind, row_date, overrides) matches Ok(items) ==> is_held(
            item_from(fragment_of(parts[at], ANCHORS@, "href"@), kind, row_date, overrides),
            items,
        ),
    decreases parts.len(),
{
    if piece_items(parts, kind, row_date, overrides) is Ok {
        let front = parts.drop_last();
        let before = piece_items(front, kind, row_date, overrides)->Ok_0;
        let items = piece_items(parts, kind, row_date, overrides)->Ok_0;
        if at < front.len() {
            lemma_piece_held(front, kind, row_date, overrides, at);
            let result = item_from(
                fragment_of(parts[at], ANCHORS@, "href"@),
                kind,
                row_date,
                overrides,
            );
            assert(front[at] == parts[at]);
            lemma_held_by_more(result, before, items.skip(before.len() as int));
            assert(before + items.skip(before.len() as int) =~= items);
        } else if items.len() > before.len() {
            assert(items[before.len() as int] == items.last());
        }
    }
}

/// Each piece of each cell of a row makes its item.
proof fn lemma_cell_held(
    cells: Seq<CellView>,
    row_date: Seq<char>,
    overrides: Map<Seq<char>, Seq<char>>,
    cell: int,
    at: int,
)
    requires
        0 <= cell < cells.len(),
        column_kind(cells[cell].column) is Some,
        0 <= at < pieces(SEGMENT_END@, cells[cell].html).len(),
    ensures
        cell_items(cells, row_date, overrides) matches Ok(items) ==> is_held(
            item_from(
                fragment_of(pieces(SEGMENT_END@, cells[cell].html)[at], ANCHORS@, "href"@),
                column_kind(cells[cell].column)->0,
                row_date,
                overrides,
            ),
            items,
        ),
    decreases cells.len(),
{
    if cell_items(cells, row_date, overrides) is Ok {
        let front = cells.drop_last();
        let before = cell_items(front, row_date, overrides)->Ok_0;
        let items = cell_items(cells, row_date, overrides)->Ok_0;
        let more = items.skip(before.len() as int);
        let parts = pieces(SEGMENT_END@, cells[cell].html);
        let kind = column_kind(cells[cell].column)->0;
        let result = item_from(
            fragment_of(parts[at], ANCHORS@, "href"@),
            kind,
            row_date,
            overrides,
        );
        if cell < front.len() {
            lemma_cell_held(front, row_date, overrides, cell, at);
            assert(front[cell] == cells[cell]);
            lemma_held_by_more(result, before, more);
        } else {
            lemma_piece_held(parts, kind, row_date, overrides, at);
            assert(more =~= piece_items(parts, kind, row_date, overrides)->Ok_0);
            lemma_held_by_more(result, more, before);
        }
        assert(before + more =~= items);
    }
}

/// Each piece of each cell of each row makes its item.
proof fn lemma_row_held(
    rows: Seq<Seq<CellView>>,
    overrides: Map<Seq<char>, Seq<char>>,
    row: int,
    cell: int,
    at: int,
)
    requires
        0 <= row < rows.len(),
        0 <= cell < rows[row].len(),
        column_kind(rows[row][cell].column) is Some,
        0 <= at < pieces(SEGMENT_END@, rows[row][cell].html).len(),
    ensures
        rows_items(rows, overrides) matches Ok(items) ==> row_date_of(rows[row]) matches Some(date)
            && is_held(
            item_from(
                fragment_of(pieces(SEGMENT_END@, rows[row][cell].html)[at], ANCHORS@, "href"@),
                column_kind(rows[row][cell].column)->0,
                date,
                overrides,
            ),
            items,
        ),
    decreases rows.len(),
{
    if rows_items(rows, overrides) is Ok {
        let front = rows.drop_last();
        let before = rows_items(front, overrides)->Ok_0;
        let items = rows_items(rows, overrides)->Ok_0;
        let more = items.skip(before.len() as int);
        let found = rows[row][cell];
        let date = row_date_of(rows[row])->0;
        let result = item_from(
            fragment_of(pieces(SEGMENT_END@, found.html)[at], ANCHORS@, "href"@),
            column_kind(found.column)->0,
            date,
            overrides,
        );
        assert(before + more =~= items);
        if row < front.len() {
            lemma_row_held(front, overrides, row, cell, at);
            assert(front[row] == rows[row]);
            lemma_held_by_more(result, before, more);
        } else {
            lemma_cell_held(rows[row], date, overrides, cell, at);
            assert(more =~= row_items(rows[row], overrides)->Ok_0);
            lemma_held_by_more(result, more, before);
        }
    }
}

/// Nothing is passed over: each piece of each cell for assignments or for what is done in class
/// makes its item, where it makes one, with the date of its row.
pub proof fn law_every_piece_is_read(
    tables: Seq<TableView>,
    overrides: Map<Seq<char>, Seq<char>>,
    items: Seq<CandidateView>,
    row: int,
    cell: int,
    at: int,
)
    requires
        items_of_tables(tables, overrides) == Ok::<_, ErrorView>(items),
        0 <= row < first_schedule(tables)->0.rows.len(),
        0 <= cell < first_schedule(tables)->0.rows[row].len(),
        column_kind(first_schedule(tables)->0.rows[row][cell].column) is Some,
        0 <= at < pieces(SEGMENT_END@, first_schedule(tables)->0.rows[row][cell].html).len(),
    ensures
        ({
            let cells = first_schedule(tables)->0.rows[row];
            row_date_of(cells) matches Some(date) && is_held(
                item_from(
                    fragment_of(pieces(SEGMENT_END@, cells[cell].html)[at], ANCHORS@, "href"@),
                    column_kind(cells[cell].column)->0,
                    date,
                    overrides,
                ),
                items,
            )
        }),
{
    lemma_row_held(first_schedule(tables)->0.rows, overrides, row, cell, at);
}

/// Whether two lists of items are the same but for the sources of items whose texts two maps of
/// identities treat differently.
pub open spec fn same_but_sources(
    items: Seq<CandidateView>,
    others: Seq<CandidateView>,
    overrides: Map<Seq<char>, Seq<char>>,
    other_overrides: Map<Seq<char>, Seq<char>>,
) -> bool {
    &&& items.len() == others.len()
    &&& forall|i: int|
        0 <= i < items.len() ==> {
            &&& #[trigger] items[i] == (CandidateView {
                source_key: items[i].source_key,
                ..others[i]
            })
            &&& looked_up(overrides, items[i].source_text) == looked_up(
                other_overrides,
                items[i].source_text,
            ) ==> items[i] == others[i]
        }
}

/// Whether two lists came to the same failure, or to the same items but for their sources.
spec fn come_to_same(
    result: Result<Seq<CandidateView>, ErrorView>,
    other: Result<Seq<CandidateView>, ErrorView>,
    overrides: Map<Seq<char>, Seq<char>>,
    other_overrides: Map<Seq<char>, Seq<char>>,
) -> bool {
    match (result, other) {
        (Ok(items), Ok(others)) => same_but_sources(items, others, overrides, other_overrides),
        (Err(error), Err(other_error)) => error == other_error,
        _ => false,
    }
}

/// The pieces of a cell make the same items but for their sources.
proof fn lemma_piece_sources(
    parts: Seq<Seq<char>>,
    kind: CandidateKind,
    row_date: Seq<char>,
    overrides: Map<Seq<char>, Seq<char>>,
    other_overrides: Map<Seq<char>, Seq<char>>,
)
    ensures
        come_to_same(
            piece_items(parts, kind, row_date, overrides),
            piece_items(parts, kind, row_date, other_overrides),
            overrides,
            other_overrides,
        ),
    decreases parts.len(),
{
    if parts.len() > 0 {
        lemma_piece_sources(parts.drop_last(), kind, row_date, overrides, other_overrides);
    }
}

/// The cells of a row make the same items but for their sources.
proof fn lemma_cell_sources(
    cells: Seq<CellView>,
    row_date: Seq<char>,
    overrides: Map<Seq<char>, Seq<char>>,
    other_overrides: Map<Seq<char>, Seq<char>>,
)
    ensures
        come_to_same(
            cell_items(cells, row_date, overrides),
            cell_items(cells, row_date, other_overrides),
            overrides,
            other_overrides,
        ),
    decreases cells.len(),
{
    if cells.len() > 0 {
        lemma_cell_sources(cells.drop_last(), row_date, overrides, other_overrides);
        match column_kind(cells.last().column) {
            Some(kind) => {
                lemma_piece_sources(
                    pieces(SEGMENT_END@, cells.last().html),
                    kind,
                    row_date,
                    overrides,
                    other_overrides,
                );
            },
            None => {},
        }
    }
}

/// Rows make the same items but for their sources.
proof fn lemma_row_sources(
    rows: Seq<Seq<CellView>>,
    overrides: Map<Seq<char>, Seq<char>>,
    other_overrides: Map<Seq<char>, Seq<char>>,
)
    ensures
        come_to_same(
            rows_items(rows, overrides),
            rows_items(rows, other_overrides),
            overrides,
            other_overrides,
        ),
    decreases rows.len(),
{
    if rows.len() > 0 {
        lemma_row_sources(rows.drop_last(), overrides, other_overrides);
        match row_date_of(rows.last()) {
            Some(date) => {
                lemma_cell_sources(rows.last(), date, overrides, other_overrides);
            },
            None => {},
        }
    }
}

/// A repeated source is a failure of its own kind.
proof fn lemma_repeated_kind(items: Seq<CandidateView>, count: int)
    ensures
        repeated_source(items, count) matches Some(error) ==> error.kind
            == ErrorKind::DuplicateSource,
    decreases count,
{
    if count > 0 {
        lemma_repeated_kind(items, count - 1);
    }
}

/// Identities that are given by hand change nothing but the sources of the items whose exact texts
/// they name. Where they make a failure or avert one, it is that two items have the same source.
pub proof fn law_overrides_decide_sources_alone(
    tables: Seq<TableView>,
    overrides: Map<Seq<char>, Seq<char>>,
    other_overrides: Map<Seq<char>, Seq<char>>,
)
    ensures
        match (items_of_tables(tables, overrides), items_of_tables(tables, other_overrides)) {
            (Ok(items), Ok(others)) => same_but_sources(
                items,
                others,
                overrides,
                other_overrides,
            ),
            (Ok(_), Err(error)) => error.kind == ErrorKind::DuplicateSource,
            (Err(error), Ok(_)) => error.kind == ErrorKind::DuplicateSource,
            (Err(error), Err(other)) => error == other || error.kind == ErrorKind::DuplicateSource
                && other.kind == ErrorKind::DuplicateSource,
        },
{
    match first_schedule(tables) {
        Some(table) => {
            lemma_row_sources(table.rows, overrides, other_overrides);
            match (rows_items(table.rows, overrides), rows_items(table.rows, other_overrides)) {
                (Ok(items), Ok(others)) => {
                    lemma_repeated_kind(items, items.len() as int);
                    lemma_repeated_kind(others, others.len() as int);
                },
                _ => {},
            }
        },
        None => {},
    }
}

/// A table is the schedule exactly where it has these seven headers in this order, but for white
/// space.
pub proof fn law_schedule_headers(table: TableView)
    ensures
        is_schedule(table) <==> {
            &&& table.headers.len() == 7
            &&& normalized(table.headers[0]) == "Week"@
            &&& normalized(table.headers[1]) == "Date"@
            &&& normalized(table.headers[2]) == "Topic"@
            &&& normalized(table.headers[3]) == "Prepare"@
            &&& normalized(table.headers[4]) == "Materials"@
            &&& normalized(table.headers[5]) == "In Class"@
            &&& normalized(table.headers[6]) == "Assignments"@
        },
{
    let found = normalized_all(table.headers);
    assert(found.len() == table.headers.len());
    assert(forall|i: int|
        0 <= i < table.headers.len() ==> #[trigger] found[i] == normalized(table.headers[i]));
    if table.headers.len() == 7 {
        assert(found[0] == normalized(table.headers[0]));
        assert(found[1] == normalized(table.headers[1]));
        assert(found[2] == normalized(table.headers[2]));
        assert(found[3] == normalized(table.headers[3]));
        assert(found[4] == normalized(table.headers[4]));
        assert(found[5] == normalized(table.headers[5]));
        assert(found[6] == normalized(table.headers[6]));
    }
    let expected = expected_headers();
    if found == expected {
        assert(found[0] == expected[0] && found[1] == expected[1] && found[2] == expected[2]
            && found[3] == expected[3] && found[4] == expected[4] && found[5] == expected[5]
            && found[6] == expected[6]);
    } else if table.headers.len() == 7 {
        assert(!(found =~= expected));
    }
}

/// Tables that are not the schedule do not matter where they come before it, and none matters
/// behind it.
pub proof fn law_first_schedule(before: Seq<TableView>, table: TableView, after: Seq<TableView>)
    requires
        forall|i: int| 0 <= i < before.len() ==> !is_schedule(#[trigger] before[i]),
    ensures
        first_schedule(before) is None,
        is_schedule(table) ==> first_schedule(before + seq![table] + after) == Some(table),
    decreases before.len(),
{
    let all = before + seq![table] + after;
    if before.len() > 0 {
        let rest = before.skip(1);
        assert(forall|i: int| 0 <= i < rest.len() ==> rest[i] == #[trigger] before[i + 1]);
        assert forall|i: int| 0 <= i < rest.len() implies !is_schedule(#[trigger] rest[i]) by {
            assert(rest[i] == before[i + 1]);
        }
        law_first_schedule(rest, table, after);
        assert(all[0] == before[0]);
        assert(all.skip(1) =~= rest + seq![table] + after);
    } else {
        assert(all[0] == table);
    }
}

/// The date of a row is the text of its first date cell, whatever other cells the row has; without
/// one, or where that is empty, there is none.
pub proof fn law_row_date_cell(before: Seq<CellView>, cell: CellView, after: Seq<CellView>)
    requires
        forall|i: int| 0 <= i < before.len() ==> (#[trigger] before[i]).column != Some("date"@),
    ensures
        row_date_of(before) is None,
        cell.column == Some("date"@) ==> row_date_of(before + seq![cell] + after) == if normalized(
            cell.text,
        ).len() > 0 {
            Some(normalized(cell.text))
        } else {
            None
        },
    decreases before.len(),
{
    let all = before + seq![cell] + after;
    if before.len() > 0 {
        let rest = before.skip(1);
        assert forall|i: int| 0 <= i < rest.len() implies (#[trigger] rest[i]).column != Some(
            "date"@,
        ) by {
            assert(rest[i] == before[i + 1]);
        }
        law_row_date_cell(rest, cell, after);
        assert(all[0] == before[0]);
        assert(all.skip(1) =~= rest + seq![cell] + after);
    } else {
        assert(all[0] == cell);
    }
}

/// Items come from the column of assignments and from that of what is done in class, each with its
/// kind, and from no other.
pub proof fn law_columns(column: Option<Seq<char>>)
    ensures
        column_kind(column) == Some(CandidateKind::Assignment) <==> column == Some("assignments"@),
        column_kind(column) == Some(CandidateKind::InClass) <==> column == Some("in_class"@),
        column_kind(column) is None <==> column != Some("assignments"@) && column != Some(
            "in_class"@,
        ),
{
    reveal_strlit("assignments");
    reveal_strlit("in_class");
    assert("assignments"@.len() != "in_class"@.len());
}

/// Replacing one character by another goes character by character.
proof fn lemma_replaced_char(text: Seq<char>, from: char, to: char)
    ensures
        replaced(text, seq![from], seq![to]).len() == text.len(),
        forall|i: int|
            0 <= i < text.len() ==> #[trigger] replaced(text, seq![from], seq![to])[i]
                == if text[i] == from {
                to
            } else {
                text[i]
            },
    decreases text.len(),
{
    if text.len() > 0 {
        let rest = text.skip(1);
        lemma_replaced_char(rest, from, to);
        let all = replaced(text, seq![from], seq![to]);
        let more = replaced(rest, seq![from], seq![to]);
        assert(text.subrange(0, 1) =~= seq![text[0]]);
        assert(stands_at(text, seq![from], 0) <==> text[0] == from) by {
            if stands_at(text, seq![from], 0) {
                assert(text.subrange(0, 1)[0] == from);
            }
        }
        assert forall|i: int| 0 <= i < text.len() implies #[trigger] all[i] == if text[i] == from {
            to
        } else {
            text[i]
        } by {
            if i > 0 {
                assert(all[i] == more[i - 1]);
                assert(rest[i - 1] == text[i]);
            }
        }
    }
}

/// A reference with no backslash and no dot with two slashes behind it stays as it is. Backslashes
/// alone become slashes, one for one.
pub proof fn law_cleaned(href: Seq<char>)
    ensures
        !href.contains('\\') && !has_part(href, ".//"@) ==> cleaned(href) == href,
        ({
            let slashed = href.map_values(
                |c: char|
                    if c == '\\' {
                        '/'
                    } else {
                        c
                    },
            );
            &&& !has_part(slashed, ".//"@) ==> cleaned(href) == slashed
            &&& cleaned(slashed) == cleaned(href)
        }),
{
    reveal_strlit("\\");
    reveal_strlit("/");
    reveal_strlit(".//");
    reveal_strlit("./");
    let slashed = href.map_values(
        |c: char|
            if c == '\\' {
                '/'
            } else {
                c
            },
    );
    assert("\\"@ =~= seq!['\\']);
    assert("/"@ =~= seq!['/']);
    lemma_replaced_char(href, '\\', '/');
    lemma_replaced_char(slashed, '\\', '/');
    assert(replaced(href, "\\"@, "/"@) =~= slashed);
    assert(replaced(slashed, "\\"@, "/"@) =~= slashed);
    if !has_part(slashed, ".//"@) {
        law_nothing_to_replace(slashed, ".//"@, "./"@);
    }
    if !href.contains('\\') {
        assert forall|i: int| 0 <= i < href.len() implies href[i] == slashed[i] by {
            assert(href.contains(href[i]));
        }
        assert(slashed =~= href);
    }
}

/// The first dot with two slashes in a reference without backslashes loses one slash.
pub proof fn law_doubled_slash(before: Seq<char>, after: Seq<char>)
    requires
        !before.contains('\\'),
        !after.contains('\\'),
        forall|k: int|
            0 <= k < before.len() ==> !#[trigger] stands_at(before + ".//"@ + after, ".//"@, k),
    ensures
        cleaned(before + ".//"@ + after) == before + "./"@ + cleaned(after),
{
    reveal_strlit("\\");
    reveal_strlit(".//");
    let href = before + ".//"@ + after;
    assert("\\"@ =~= seq!['\\']);
    assert(!has_part(href, "\\"@)) by {
        if has_part(href, "\\"@) {
            let at = choose|at: int| #[trigger] stands_at(href, "\\"@, at);
            assert(href.subrange(at, at + 1)[0] == '\\');
            if at < before.len() {
                assert(before.contains(before[at]));
            } else if at >= before.len() + 3 {
                assert(after.contains(after[at - before.len() - 3]));
            }
        }
    }
    assert(!has_part(after, "\\"@)) by {
        if has_part(after, "\\"@) {
            let at = choose|at: int| #[trigger] stands_at(after, "\\"@, at);
            assert(after.subrange(at, at + 1)[0] == '\\');
            assert(after.contains(after[at]));
        }
    }
    law_nothing_to_replace(href, "\\"@, "/"@);
    law_nothing_to_replace(after, "\\"@, "/"@);
    law_first_is_replaced(before, ".//"@, "./"@, after);
}

/// An anchor makes a link exactly where its cleaned reference leads, from the page of the schedule,
/// to an address of the web. The link has its number, its text with the white space reduced, and
/// that address without the fragment.
pub proof fn law_link_of_anchor(anchor: AnchorView, index: nat, link: LinkView)
    ensures
        link_from(anchor, index) == Ok::<_, ErrorView>(link) <==> {
            &&& reference_of("https://data385.netlify.app/schedule"@, cleaned(anchor.href)) matches
                Some(target) && (target.0 == "http"@ || target.0 == "https"@) && link.url
                == without_fragment(target.1)
            &&& link.text == normalized(anchor.text)
            &&& link.id == "link_"@ + decimal_text(index)
        },
        link_from(anchor, index) matches Err(error) ==> if reference_of(
            "https://data385.netlify.app/schedule"@,
            cleaned(anchor.href),
        ) is None {
            error.kind == ErrorKind::InvalidSourceUrl
        } else {
            error.kind == ErrorKind::UnsupportedSourceUrl
        },
{
    assert(SCHEDULE_URL@ == "https://data385.netlify.app/schedule"@);
}

/// Anchors make one link each, in order, numbered from zero on, or no links where one of them
/// makes none.
pub proof fn law_links_of_anchors(anchors: Seq<AnchorView>)
    ensures
        links_from(anchors) matches Ok(links) ==> links.len() == anchors.len() && forall|k: int|
            0 <= k < anchors.len() ==> #[trigger] link_from(anchors[k], k as nat) == Ok::<
                _,
                ErrorView,
            >(links[k]),
        links_from(anchors) is Err <==> exists|k: int|
            0 <= k < anchors.len() && #[trigger] link_from(anchors[k], k as nat) is Err,
    decreases anchors.len(),
{
    if anchors.len() > 0 {
        let front = anchors.drop_last();
        let last = anchors.len() - 1;
        law_links_of_anchors(front);
        assert(anchors[last] == anchors.last());
        assert(forall|k: int| 0 <= k < front.len() ==> front[k] == #[trigger] anchors[k]);
        if links_from(front) is Err {
            let k = choose|k: int|
                0 <= k < front.len() && #[trigger] link_from(front[k], k as nat) is Err;
            assert(link_from(anchors[k], k as nat) is Err);
        } else {
            let before = links_from(front)->Ok_0;
            assert forall|k: int| 0 <= k < front.len() implies #[trigger] link_from(
                anchors[k],
                k as nat,
            ) == Ok::<_, ErrorView>(before[k]) by {
                assert(link_from(front[k], k as nat) == Ok::<_, ErrorView>(before[k]));
            }
            if link_from(anchors.last(), last as nat) is Err {
                assert(link_from(anchors[last], last as nat) is Err);
            } else {
                let links = links_from(anchors)->Ok_0;
                assert forall|k: int| 0 <= k < anchors.len() implies #[trigger] link_from(
                    anchors[k],
                    k as nat,
                ) == Ok::<_, ErrorView>(links[k]) by {
                    if k < last {
                        assert(links[k] == before[k]);
                    }
                }
            }
        }
    }
}

/// A piece of a cell is passed over exactly where it has no text, or where it comes from what is
/// done in class and no word in it opens a deadline, whatever anchors it has. Any other piece makes
/// an item where its anchors make links, and is a failure where they do not. The item has the
/// kind, the date of the row, the text with its white space reduced, and the links that were given.
pub proof fn law_piece_makes_item(
    fragment: FragmentView,
    kind: CandidateKind,
    row_date: Seq<char>,
    overrides: Map<Seq<char>, Seq<char>>,
)
    ensures
        item_from(fragment, kind, row_date, overrides) matches Ok(None) <==> normalized(
            fragment.text,
        ).len() == 0 || kind == CandidateKind::InClass && first_match(
            DUE_MARKER@,
            normalized(fragment.text),
        ) is None,
        normalized(fragment.text).len() > 0 && (kind == CandidateKind::Assignment || first_match(
            DUE_MARKER@,
            normalized(fragment.text),
        ) is Some) ==> match links_from(fragment.anchors) {
            Ok(links) => item_from(fragment, kind, row_date, overrides) matches Ok(Some(item)) && {
                &&& item.kind == kind
                &&& item.row_date == row_date
                &&& item.source_text == normalized(fragment.text)
                &&& item.links == links
            },
            Err(error) => item_from(fragment, kind, row_date, overrides) == Err::<
                Option<CandidateView>,
                _,
            >(error),
        },
{
}

/// The pieces of a cell make their items one after the other.
pub proof fn law_pieces_in_order(
    parts: Seq<Seq<char>>,
    part: Seq<char>,
    kind: CandidateKind,
    row_date: Seq<char>,
    overrides: Map<Seq<char>, Seq<char>>,
)
    ensures
        piece_items(seq![], kind, row_date, overrides) == Ok::<Seq<CandidateView>, ErrorView>(
            seq![],
        ),
        ({
            let item = item_from(
                fragment_of(part, "a[href]"@, "href"@),
                kind,
                row_date,
                overrides,
            );
            match (piece_items(parts, kind, row_date, overrides), item) {
                (Ok(items), Ok(Some(item))) => piece_items(
                    parts.push(part),
                    kind,
                    row_date,
                    overrides,
                ) == Ok::<_, ErrorView>(items.push(item)),
                (Ok(items), Ok(None)) => piece_items(parts.push(part), kind, row_date, overrides)
                    == Ok::<_, ErrorView>(items),
                _ => piece_items(parts.push(part), kind, row_date, overrides) is Err,
            }
        }),
{
    assert(parts.push(part).drop_last() =~= parts);
    assert(ANCHORS@ == "a[href]"@);
}

/// The cells of a row make their items one after the other; those of other columns make none.
pub proof fn law_cells_in_order(
    cells: Seq<CellView>,
    cell: CellView,
    row_date: Seq<char>,
    overrides: Map<Seq<char>, Seq<char>>,
)
    ensures
        cell_items(seq![], row_date, overrides) == Ok::<Seq<CandidateView>, ErrorView>(seq![]),
        cell.column != Some("assignments"@) && cell.column != Some("in_class"@) ==> cell_items(
            cells.push(cell),
            row_date,
            overrides,
        ) == cell_items(cells, row_date, overrides),
        cell.column == Some("assignments"@) || cell.column == Some("in_class"@) ==> {
            let kind = if cell.column == Some("assignments"@) {
                CandidateKind::Assignment
            } else {
                CandidateKind::InClass
            };
            match (
                cell_items(cells, row_date, overrides),
                piece_items(pieces(SEGMENT_END@, cell.html), kind, row_date, overrides),
            ) {
                (Ok(items), Ok(more)) => cell_items(cells.push(cell), row_date, overrides) == Ok::<
                    _,
                    ErrorView,
                >(items + more),
                _ => cell_items(cells.push(cell), row_date, overrides) is Err,
            }
        },
{
    law_columns(cell.column);
    assert(cells.push(cell).drop_last() =~= cells);
}

/// The rows of the schedule make their items one after the other, each with the date of its row.
/// A row without a date, or with one that is wrong, is a failure.
pub proof fn law_rows_in_order(
    rows: Seq<Seq<CellView>>,
    row: Seq<CellView>,
    overrides: Map<Seq<char>, Seq<char>>,
)
    ensures
        rows_items(seq![], overrides) == Ok::<Seq<CandidateView>, ErrorView>(seq![]),
        match (rows_items(rows, overrides), row_date_of(row)) {
            (Ok(items), Some(date)) => match (
                row_date_problem(date),
                cell_items(row, date, overrides),
            ) {
                (None, Ok(more)) => rows_items(rows.push(row), overrides) == Ok::<_, ErrorView>(
                    items + more,
                ),
                _ => rows_items(rows.push(row), overrides) is Err,
            },
            _ => rows_items(rows.push(row), overrides) is Err,
        },
{
    assert(rows.push(row).drop_last() =~= rows);
}

/// Items of different sources repeat none.
proof fn lemma_no_repetition(items: Seq<CandidateView>, count: int)
    requires
        0 <= count <= items.len(),
        forall|i: int, j: int|
            0 <= i < j < items.len() ==> (#[trigger] items[i]).source_key != (
            #[trigger] items[j]).source_key,
    ensures
        repeated_source(items, count) is None,
    decreases count,
{
    if count > 0 {
        lemma_no_repetition(items, count - 1);
    }
}

/// The tables of a page make items exactly where one is the schedule and its rows make items, at
/// least one, of which no two have the same source: then those, and all of them.
pub proof fn law_items_of_tables(
    tables: Seq<TableView>,
    overrides: Map<Seq<char>, Seq<char>>,
    items: Seq<CandidateView>,
)
    ensures
        items_of_tables(tables, overrides) == Ok::<_, ErrorView>(items) <==> {
            &&& first_schedule(tables) matches Some(table) && rows_items(table.rows, overrides)
                == Ok::<_, ErrorView>(items)
            &&& items.len() > 0
            &&& forall|i: int, j: int|
                0 <= i < j < items.len() ==> (#[trigger] items[i]).source_key != (
                #[trigger] items[j]).source_key
        },
{
    if items_of_tables(tables, overrides) == Ok::<_, ErrorView>(items) {
        law_extracted_items(tables, overrides, items);
    } else if forall|i: int, j: int|
        0 <= i < j < items.len() ==> (#[trigger] items[i]).source_key != (
        #[trigger] items[j]).source_key {
        lemma_no_repetition(items, items.len() as int);
    }
}

/// What stands before the kind in the basis of a fingerprint.
spec fn basis_head() -> Seq<char> {
    "model="@ + MODEL@ + "\nprompt="@ + PROMPT_VERSION@ + "\nschema="@ + decimal_text(
        SCHEMA_VERSION as nat,
    ) + "\nkind="@
}

/// Texts put together one way or the other are the same.
proof fn lemma_regroup(
    head: Seq<char>,
    a: Seq<char>,
    p: Seq<char>,
    b: Seq<char>,
    q: Seq<char>,
    c: Seq<char>,
    r: Seq<char>,
    d: Seq<char>,
)
    ensures
        head + a + p + b + q + c + r + d == head + (a + (p + (b + (q + (c + (r + d)))))),
{
    assert(head + a + p + b + q + c + r + d =~= head + (a + (p + (b + (q + (c + (r + d)))))));
}

/// A text, a mark that opens a line, and what follows are told apart.
proof fn lemma_cut_at_line(
    a: Seq<char>,
    b: Seq<char>,
    word: Seq<char>,
    x: Seq<char>,
    y: Seq<char>,
)
    requires
        word.len() > 0,
        word[0] == '\n',
        !a.contains('\n'),
        !b.contains('\n'),
        a + (word + x) == b + (word + y),
    ensures
        a == b,
        x == y,
{
    let rest = word.skip(1);
    assert(a + (word + x) =~= a + seq!['\n'] + (rest + x));
    assert(b + (word + y) =~= b + seq!['\n'] + (rest + y));
    lemma_cut_at_mark(a, b, '\n', rest + x, rest + y);
    lemma_same_start(rest, x, y);
}

/// The names of kinds stand on one line and differ.
proof fn lemma_kind_names()
    ensures
        !kind_name(CandidateKind::Assignment).contains('\n'),
        !kind_name(CandidateKind::InClass).contains('\n'),
        kind_name(CandidateKind::Assignment) != kind_name(CandidateKind::InClass),
{
    reveal_strlit("Assignment");
    reveal_strlit("InClass");
    assert("Assignment"@.len() != "InClass"@.len());
}

/// What a fingerprint is made of tells items apart: items with row dates and texts on one line
/// each that have the same basis have the same kind, row date and text, and the same list of links
/// as it is written.
pub proof fn law_fingerprints_tell_items_apart(
    kind: CandidateKind,
    row_date: Seq<char>,
    text: Seq<char>,
    links: Seq<LinkView>,
    other_kind: CandidateKind,
    other_row_date: Seq<char>,
    other_text: Seq<char>,
    other_links: Seq<LinkView>,
)
    requires
        !row_date.contains('\n'),
        !text.contains('\n'),
        !other_row_date.contains('\n'),
        !other_text.contains('\n'),
        fingerprint_basis(kind, row_date, text, links) == fingerprint_basis(
            other_kind,
            other_row_date,
            other_text,
            other_links,
        ),
    ensures
        kind == other_kind,
        row_date == other_row_date,
        text == other_text,
        links_json(links) == links_json(other_links),
{
    let p = "\nrow="@;
    let q = "\ntext="@;
    let r = "\nlinks="@;
    assert(p.len() > 0 && p[0] == '\n') by {
        reveal_strlit("\nrow=");
    }
    assert(q.len() > 0 && q[0] == '\n') by {
        reveal_strlit("\ntext=");
    }
    assert(r.len() > 0 && r[0] == '\n') by {
        reveal_strlit("\nlinks=");
    }
    lemma_kind_names();
    let head = basis_head();
    let list = links_json(links);
    let other_list = links_json(other_links);
    let third = text + (r + list);
    let other_third = other_text + (r + other_list);
    let second = row_date + (q + third);
    let other_second = other_row_date + (q + other_third);
    let first = kind_name(kind) + (p + second);
    let other_first = kind_name(other_kind) + (p + other_second);
    lemma_regroup(head, kind_name(kind), p, row_date, q, text, r, list);
    lemma_regroup(
        head,
        kind_name(other_kind),
        p,
        other_row_date,
        q,
        other_text,
        r,
        other_list,
    );
    lemma_same_start(head, first, other_first);
    lemma_cut_at_line(kind_name(kind), kind_name(other_kind), p, second, other_second);
    lemma_cut_at_line(row_date, other_row_date, q, third, other_third);
    lemma_cut_at_line(text, other_text, r, list, other_list);
}

/// The texts of items that the schedule makes stand on one line, so their fingerprints have the
/// same digest only where the bases have, or where kind, row date, text and links are the same.
pub proof fn law_changed_text_changes_basis(
    item: CandidateView,
    other: CandidateView,
    overrides: Map<Seq<char>, Seq<char>>,
)
    requires
        is_schedule_item(item, overrides),
        is_schedule_item(other, overrides),
        !item.row_date.contains('\n'),
        !other.row_date.contains('\n'),
        item.kind != other.kind || item.row_date != other.row_date || item.source_text
            != other.source_text,
    ensures
        exists|basis: Seq<char>, other_basis: Seq<char>|
            basis != other_basis && item.fingerprint == #[trigger] sha256_hex(basis)
                && other.fingerprint == #[trigger] sha256_hex(other_basis),
{
    assert forall|text: Seq<char>| #[trigger] is_reduced(text) implies !text.contains('\n') by {
        assert forall|i: int| 0 <= i < text.len() implies text[i] != '\n' by {
            if text[i] == '\n' {
                assert(is_space(text[i]));
            }
        }
    }
    let basis = fingerprint_basis(item.kind, item.row_date, item.source_text, item.links);
    let other_basis = fingerprint_basis(other.kind, other.row_date, other.source_text, other.links);
    if basis == other_basis {
        law_fingerprints_tell_items_apart(
            item.kind,
            item.row_date,
            item.source_text,
            item.links,
            other.kind,
            other.row_date,
            other.source_text,
            other.links,
        );
    }
    assert(item.fingerprint == sha256_hex(basis) && other.fingerprint == sha256_hex(other_basis));
}

/// Whether texts that are quoted are told apart, and what follows them too, as JSON strings are.
#[verifier::opaque]
pub open spec fn quotes_delimit() -> bool {
    forall|a: Seq<char>, b: Seq<char>, x: Seq<char>, y: Seq<char>|
        #[trigger] (quoted(a) + x) == #[trigger] (quoted(b) + y) ==> a == b && x == y
}

/// Where quoting tells texts apart, it does so for any two.
pub proof fn lemma_quoted(a: Seq<char>, b: Seq<char>, x: Seq<char>, y: Seq<char>)
    requires
        quotes_delimit(),
        quoted(a) + x == quoted(b) + y,
    ensures
        a == b,
        x == y,
{
    reveal(quotes_delimit);
}

/// Links that are written are told apart, and what follows them too.
proof fn lemma_link_json(a: LinkView, b: LinkView, x: Seq<char>, y: Seq<char>)
    requires
        quotes_delimit(),
        link_json(a) + x == link_json(b) + y,
    ensures
        a == b,
        x == y,
{
    let id = "{\"id\":"@;
    let text = ",\"text\":"@;
    let url = ",\"url\":"@;
    let end = "}"@;
    let last = end + x;
    let other_last = end + y;
    let third = url + (quoted(a.url) + last);
    let other_third = url + (quoted(b.url) + other_last);
    let second = text + (quoted(a.text) + third);
    let other_second = text + (quoted(b.text) + other_third);
    assert(link_json(a) + x =~= id + (quoted(a.id) + second));
    assert(link_json(b) + y =~= id + (quoted(b.id) + other_second));
    lemma_same_start(id, quoted(a.id) + second, quoted(b.id) + other_second);
    lemma_quoted(a.id, b.id, second, other_second);
    lemma_same_start(text, quoted(a.text) + third, quoted(b.text) + other_third);
    lemma_quoted(a.text, b.text, third, other_third);
    lemma_same_start(url, quoted(a.url) + last, quoted(b.url) + other_last);
    lemma_quoted(a.url, b.url, last, other_last);
    lemma_same_start(end, x, y);
}

/// The list of links as it is written tells links apart, where quoting does: the same text means
/// the same links in the same order.
pub proof fn law_link_lists_are_told_apart(links: Seq<LinkView>, others: Seq<LinkView>)
    requires
        quotes_delimit(),
        links.len() == others.len(),
        links_json(links) == links_json(others),
    ensures
        links == others,
{
    reveal_strlit("[");
    let texts = links.map_values(|link: LinkView| link_json(link));
    let other_texts = others.map_values(|link: LinkView| link_json(link));
    let end = "]"@;
    assert(links_json(links) =~= "["@ + (joined(texts, ","@) + end));
    assert(links_json(others) =~= "["@ + (joined(other_texts, ","@) + end));
    lemma_same_start("["@, joined(texts, ","@) + end, joined(other_texts, ","@) + end);
    lemma_joined_links(links, others, end, end);
}

/// Joined links are told apart, and what follows them too.
proof fn lemma_joined_links(
    links: Seq<LinkView>,
    others: Seq<LinkView>,
    x: Seq<char>,
    y: Seq<char>,
)
    requires
        quotes_delimit(),
        links.len() == others.len(),
        joined(links.map_values(|link: LinkView| link_json(link)), ","@) + x == joined(
            others.map_values(|link: LinkView| link_json(link)),
            ","@,
        ) + y,
    ensures
        links == others,
        x == y,
    decreases links.len(),
{
    let texts = links.map_values(|link: LinkView| link_json(link));
    let other_texts = others.map_values(|link: LinkView| link_json(link));
    if links.len() == 0 {
        assert(joined(texts, ","@) + x =~= x);
        assert(joined(other_texts, ","@) + y =~= y);
        assert(links =~= others);
    } else if links.len() == 1 {
        lemma_link_json(links[0], others[0], x, y);
        assert(links =~= others);
    } else {
        let front = links.drop_last();
        let start = others.drop_last();
        let comma = ","@;
        assert(texts.drop_last() =~= front.map_values(|link: LinkView| link_json(link)));
        assert(other_texts.drop_last() =~= start.map_values(|link: LinkView| link_json(link)));
        let tail = comma + (link_json(links.last()) + x);
        let other_tail = comma + (link_json(others.last()) + y);
        assert(joined(texts, comma) + x =~= joined(texts.drop_last(), comma) + tail);
        assert(joined(other_texts, comma) + y =~= joined(other_texts.drop_last(), comma)
            + other_tail);
        lemma_joined_links(front, start, tail, other_tail);
        lemma_same_start(comma, link_json(links.last()) + x, link_json(others.last()) + y);
        lemma_link_json(links.last(), others.last(), x, y);
        assert(links =~= front.push(links.last()));
        assert(others =~= start.push(others.last()));
    }
}

/// A link is written with its identifier, its text and its address, each under its own name, and
/// links are written one after the other with commas between.
pub proof fn law_written_links(links: Seq<LinkView>, link: LinkView)
    ensures
        has_part(link_json(link), "\"id\":"@ + quoted(link.id)),
        has_part(link_json(link), "\"text\":"@ + quoted(link.text)),
        has_part(link_json(link), "\"url\":"@ + quoted(link.url)),
        links_json(seq![]) == "["@ + "]"@,
        links_json(seq![link]) == "["@ + link_json(link) + "]"@,
        links.len() > 0 ==> links_json(links.push(link)) == links_json(links).drop_last() + ","@
            + link_json(link) + "]"@,
{
    reveal_strlit("{\"id\":");
    reveal_strlit("\"id\":");
    reveal_strlit(",\"text\":");
    reveal_strlit("\"text\":");
    reveal_strlit(",\"url\":");
    reveal_strlit("\"url\":");
    let whole = link_json(link);
    let id = quoted(link.id);
    let text = quoted(link.text);
    let url = quoted(link.url);
    let id_name = "\"id\":"@;
    let text_name = "\"text\":"@;
    let url_name = "\"url\":"@;
    assert("{\"id\":"@ =~= seq!['{'] + id_name);
    assert(",\"text\":"@ =~= seq![','] + text_name);
    assert(",\"url\":"@ =~= seq![','] + url_name);
    let after_id = seq![','] + text_name + text + seq![','] + url_name + url + "}"@;
    let after_text = seq![','] + url_name + url + "}"@;
    assert(whole =~= seq!['{'] + (id_name + id) + after_id);
    assert(whole =~= (seq!['{'] + id_name + id + seq![',']) + (text_name + text) + after_text);
    assert(whole =~= (seq!['{'] + id_name + id + seq![','] + text_name + text + seq![',']) + (
    url_name + url) + "}"@);
    law_has_part(whole, id_name + id);
    law_has_part(whole, text_name + text);
    law_has_part(whole, url_name + url);
    lemma_written_list(links, link);
}

/// Links are written one after the other.
proof fn lemma_written_list(links: Seq<LinkView>, link: LinkView)
    ensures
        links_json(seq![]) == "["@ + "]"@,
        links_json(seq![link]) == "["@ + link_json(link) + "]"@,
        links.len() > 0 ==> links_json(links.push(link)) == links_json(links).drop_last() + ","@
            + link_json(link) + "]"@,
{
    reveal_strlit("]");
    let texts = links.map_values(|link: LinkView| link_json(link));
    let one = seq![link].map_values(|link: LinkView| link_json(link));
    let none = Seq::<LinkView>::empty().map_values(|link: LinkView| link_json(link));
    let more = links.push(link).map_values(|link: LinkView| link_json(link));
    assert(one =~= seq![link_json(link)]);
    assert(none =~= seq![]);
    assert(more =~= texts.push(link_json(link)));
    law_joined(texts, link_json(link), ","@);
    assert("["@ + Seq::<char>::empty() + "]"@ =~= "["@ + "]"@);
    if links.len() > 0 {
        let list = joined(texts, ","@);
        assert(links_json(links).drop_last() =~= "["@ + list);
        assert(links_json(links.push(link)) =~= "["@ + list + ","@ + link_json(link) + "]"@);
    }
}

/// What keeps a page from having items is told by kind: no schedule, a row without a date, or
/// nothing in any row.
pub proof fn law_kinds_of_bad_pages(
    tables: Seq<TableView>,
    row: Seq<CellView>,
    overrides: Map<Seq<char>, Seq<char>>,
)
    ensures
        first_schedule(tables) is None ==> (items_of_tables(tables, overrides) matches Err(error)
            && error.kind == ErrorKind::TableNotFound),
        row_date_of(row) is None ==> (row_items(row, overrides) matches Err(error) && error.kind
            == ErrorKind::RowWithoutDate),
        (first_schedule(tables) matches Some(table) && rows_items(table.rows, overrides) matches Ok(
            items,
        ) && items.len() == 0) ==> (items_of_tables(tables, overrides) matches Err(error)
            && error.kind == ErrorKind::NoCandidates),
{
}

} // verus!
