//! What the scraper crate reads from HTML.

use scraper::{Html, Selector};
use vstd::prelude::*;

use crate::text::{opt_view, views};

verus! {

/// A cell of a table row: the attribute that names its column, its text, and its inner HTML.
pub struct Cell {
    pub column: Option<String>,
    pub text: String,
    pub html: String,
}

/// A table: the texts of its header cells, and its rows of cells.
pub struct Table {
    pub headers: Vec<String>,
    pub rows: Vec<Vec<Cell>>,
}

/// A link element: where it leads, and its text.
pub struct Anchor {
    pub href: String,
    pub text: String,
}

/// A piece of HTML: its text, and its links in order.
pub struct Fragment {
    pub text: String,
    pub anchors: Vec<Anchor>,
}

/// The contents of a cell.
#[verifier::ext_equal]
pub struct CellView {
    pub column: Option<Seq<char>>,
    pub text: Seq<char>,
    pub html: Seq<char>,
}

/// The contents of a table.
#[verifier::ext_equal]
pub struct TableView {
    pub headers: Seq<Seq<char>>,
    pub rows: Seq<Seq<CellView>>,
}

/// The contents of a link element.
#[verifier::ext_equal]
pub struct AnchorView {
    pub href: Seq<char>,
    pub text: Seq<char>,
}

/// The contents of a piece of HTML.
#[verifier::ext_equal]
pub struct FragmentView {
    pub text: Seq<char>,
    pub anchors: Seq<AnchorView>,
}

impl View for Cell {
    type V = CellView;

    open spec fn view(&self) -> CellView {
        CellView {
            column: opt_view(self.column),
            text: self.text@,
            html: self.html@,
        }
    }
}

impl View for Table {
    type V = TableView;

    open spec fn view(&self) -> TableView {
        TableView {
            headers: views(self.headers@),
            rows: self.rows@.map_values(|row: Vec<Cell>| views(row@)),
        }
    }
}

impl View for Anchor {
    type V = AnchorView;

    open spec fn view(&self) -> AnchorView {
        AnchorView { href: self.href@, text: self.text@ }
    }
}

impl View for Fragment {
    type V = FragmentView;

    open spec fn view(&self) -> FragmentView {
        FragmentView { text: self.text@, anchors: views(self.anchors@) }
    }
}

/// The elements of a page that are schedule tables.
pub const TABLES: &'static str = "main table, table";

/// The header cells of a table.
pub const HEADERS: &'static str = "thead th";

/// The body rows of a table.
pub const ROWS: &'static str = "tbody > tr";

/// The cells of a row.
pub const CELLS: &'static str = "td";

/// The links of a piece of HTML.
pub const ANCHORS: &'static str = "a[href]";

/// The tables that scraper selects in a document, each with the header texts, the rows, and in
/// them the cells that it selects below the table.
pub uninterp spec fn document_tables(
    html: Seq<char>,
    tables: Seq<char>,
    headers: Seq<char>,
    rows: Seq<char>,
    cells: Seq<char>,
    column: Seq<char>,
) -> Seq<TableView>;

/// Calls scraper's `Html::parse_document`, `select` with one selector inside the other, `text`,
/// `attr` and `inner_html`. What a browser would make of the document, and the order of the
/// elements, is left to the name `document_tables`. The selectors are ones that scraper parses.
#[verifier::external_body]
pub(crate) fn read_tables(
    html: &str,
    tables: &str,
    headers: &str,
    rows: &str,
    cells: &str,
    column: &str,
) -> (r: Vec<Table>)
    requires
        tables@ == TABLES@,
        headers@ == HEADERS@,
        rows@ == ROWS@,
        cells@ == CELLS@,
    ensures
        views(r@) == document_tables(html@, tables@, headers@, rows@, cells@, column@),
{
    let css = |text: &str| Selector::parse(text).expect("static selector");
    let (tables, headers, rows, cells) = (css(tables), css(headers), css(rows), css(cells));
    let document = Html::parse_document(html);
    document.select(&tables).map(|table| Table {
        headers: table.select(&headers).map(|cell| cell.text().collect()).collect(),
        rows: table.select(&rows).map(|row| row.select(&cells).map(|cell| Cell {
            column: cell.value().attr(column).map(str::to_owned),
            text: cell.text().collect(),
            html: cell.inner_html(),
        }).collect()).collect(),
    }).collect()
}

/// The text of a piece of HTML, and the links that scraper selects in it.
pub uninterp spec fn fragment_of(
    html: Seq<char>,
    anchors: Seq<char>,
    target: Seq<char>,
) -> FragmentView;

/// Calls scraper's `Html::parse_fragment`, `select`, `text` and `attr`. What the piece of HTML
/// means is left to the name `fragment_of`. The selector asks for the attribute that is read.
#[verifier::external_body]
pub(crate) fn read_fragment(html: &str, anchors: &str, target: &str) -> (r: Fragment)
    requires
        anchors@ == ANCHORS@,
        target@ == "href"@,
    ensures
        r@ == fragment_of(html@, anchors@, target@),
{
    let anchors = Selector::parse(anchors).expect("static selector");
    let fragment = Html::parse_fragment(html);
    let links = fragment.select(&anchors).map(|anchor| Anchor {
        href: anchor.value().attr(target).expect("selected href").to_owned(),
        text: anchor.text().collect(),
    });
    Fragment { text: fragment.root_element().text().collect(), anchors: links.collect() }
}

/// What is looked for in a page: its tables, their header cells, body rows and cells, and the links
/// of a piece.
pub proof fn law_selectors()
    ensures
        TABLES@ == "main table, table"@,
        HEADERS@ == "thead th"@,
        ROWS@ == "tbody > tr"@,
        CELLS@ == "td"@,
        ANCHORS@ == "a[href]"@,
{
}

} // verus!
