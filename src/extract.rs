use crate::decimal::{parse_decimal, parse_u32};
use crate::volume::{NjVolume, VolumeView};
use vstd::prelude::*;

verus! {

/// Why a day's page yields no records.
#[derive(Clone, Copy, Debug, PartialEq, Eq, Structural)]
pub enum ExtractError {
    /// The row or cell selector was refused by the selector parser.
    Selector,
    /// Row `row` has fewer cells than the layout needs.
    Structure { row: usize },
    /// Cell `column` of row `row` does not hold a count.
    Parse { row: usize, column: usize },
}

/// The rows of the table: every `tr` inside a `tbody` inside the `body`.
pub const ROW_SELECTOR: &'static str = "body tbody tr";

/// The cells of a row.
pub const CELL_SELECTOR: &'static str = "td";

/// The fewest cells a row may have.
pub const MIN_CELLS: usize = 6;

/// The cell that holds the project's name.
pub const NAME_COLUMN: usize = 0;

/// The cell that holds the day's subscriptions.
pub const SUBSCRIPTION_COLUMN: usize = 4;

/// The cell that holds the day's transactions.
pub const TRANSACTION_COLUMN: usize = 5;

/// The cells of an HTML document, row by row in document order: for each
/// element that `rows` selects, for each element under it that `cells`
/// selects, the first text node in it, if any; `None` where a selector does
/// not parse. Rows and cells come in the order in which the parser created
/// their nodes.
pub uninterp spec fn selected_cells(html: Seq<char>, rows: Seq<char>, cells: Seq<char>) -> Option<
    Seq<Seq<Option<Seq<char>>>>,
>;

/// Relies on scraper's `Html::parse_document`, `Selector::parse`,
/// `Html::select`, `ElementRef::select` and `ElementRef::text`: the first text
/// of each cell that `cells` selects in each row that `rows` selects, in the
/// order of the parsed tree's nodes, a function of the three texts alone.
#[verifier::external_body]
fn select_cells(html: &str, rows: &str, cells: &str) -> (r: Option<Vec<Vec<Option<String>>>>)
    ensures
        r.deep_view() == selected_cells(html@, rows@, cells@),
{
    let doc = scraper::Html::parse_document(html);
    let row_selector = scraper::Selector::parse(rows).ok()?;
    let cell_selector = scraper::Selector::parse(cells).ok()?;
    let table = doc.select(&row_selector).map(
        |row| row.select(&cell_selector).map(|cell| cell.text().next().map(String::from)).collect(),
    );
    Some(table.collect())
}

/// The text of a cell: its first text node, or empty text where it has none.
pub open spec fn cell_text(cell: Option<Seq<char>>) -> Seq<char> {
    match cell {
        Some(text) => text,
        None => Seq::empty(),
    }
}

/// The row has the layout of the table: enough cells, and a count in each count cell.
pub open spec fn row_well_formed(cells: Seq<Option<Seq<char>>>) -> bool {
    &&& cells.len() >= MIN_CELLS
    &&& parse_u32(cell_text(cells[SUBSCRIPTION_COLUMN as int])) is Some
    &&& parse_u32(cell_text(cells[TRANSACTION_COLUMN as int])) is Some
}

/// The record of row number `row` of the table for `day`, or why there is none.
pub open spec fn row_outcome(cells: Seq<Option<Seq<char>>>, day: Seq<char>, row: usize) -> Result<
    VolumeView,
    ExtractError,
> {
    if cells.len() < MIN_CELLS {
        Err(ExtractError::Structure { row })
    } else if parse_u32(cell_text(cells[SUBSCRIPTION_COLUMN as int])) is None {
        Err(ExtractError::Parse { row, column: SUBSCRIPTION_COLUMN })
    } else if parse_u32(cell_text(cells[TRANSACTION_COLUMN as int])) is None {
        Err(ExtractError::Parse { row, column: TRANSACTION_COLUMN })
    } else {
        Ok(
            VolumeView {
                name: cell_text(cells[NAME_COLUMN as int]),
                subscription: parse_u32(cell_text(cells[SUBSCRIPTION_COLUMN as int]))->0,
                transaction: parse_u32(cell_text(cells[TRANSACTION_COLUMN as int]))->0,
                day,
            },
        )
    }
}

/// The records of the rows for `day`, in row order, or the error of the first
/// row that has none.
pub open spec fn rows_outcome(rows: Seq<Seq<Option<Seq<char>>>>, day: Seq<char>) -> Result<
    Seq<VolumeView>,
    ExtractError,
>
    decreases rows.len(),
{
    if rows.len() == 0 {
        Ok(Seq::empty())
    } else {
        match rows_outcome(rows.drop_last(), day) {
            Err(e) => Err(e),
            Ok(records) => match row_outcome(rows.last(), day, (rows.len() - 1) as usize) {
                Err(e) => Err(e),
                Ok(record) => Ok(records.push(record)),
            },
        }
    }
}

/// The records of the page `html` for `day`, or why there are none.
pub open spec fn page_outcome(html: Seq<char>, day: Seq<char>) -> Result<
    Seq<VolumeView>,
    ExtractError,
> {
    match selected_cells(html, ROW_SELECTOR@, CELL_SELECTOR@) {
        None => Err(ExtractError::Selector),
        Some(rows) => rows_outcome(rows, day),
    }
}

pub open spec fn records_view(records: Seq<NjVolume>) -> Seq<VolumeView> {
    records.map_values(|r: NjVolume| r@)
}

/// What an extraction returned, as values.
pub open spec fn outcome_view(r: Result<Vec<NjVolume>, ExtractError>) -> Result<
    Seq<VolumeView>,
    ExtractError,
> {
    match r {
        Ok(records) => Ok(records_view(records@)),
        Err(e) => Err(e),
    }
}

fn count_of(cell: &Option<String>, row: usize, column: usize) -> (r: Result<u32, ExtractError>)
    ensures
        r == (match parse_u32(cell_text(cell.deep_view())) {
            Some(n) => Ok(n),
            None => Err(ExtractError::Parse { row, column }),
        }),
{
    match cell {
        Some(text) => match parse_decimal(text.as_str()) {
            Some(n) => Ok(n),
            None => Err(ExtractError::Parse { row, column }),
        },
        None => {
            assert(parse_u32(Seq::<char>::empty()) is None);
            Err(ExtractError::Parse { row, column })
        },
    }
}

/// The record of one row of cells, row number `row` of the table for `day`.
pub fn extract_row(cells: &Vec<Option<String>>, day: &str, row: usize) -> (r: Result<
    NjVolume,
    ExtractError,
>)
    ensures
        match r {
            Ok(record) => row_outcome(cells.deep_view(), day@, row) == Ok::<
                VolumeView,
                ExtractError,
            >(record@),
            Err(e) => row_outcome(cells.deep_view(), day@, row) == Err::<VolumeView, ExtractError>(
                e,
            ),
        },
{
    if cells.len() < MIN_CELLS {
        return Err(ExtractError::Structure { row });
    }
    let subscription = count_of(&cells[SUBSCRIPTION_COLUMN], row, SUBSCRIPTION_COLUMN)?;
    let transaction = count_of(&cells[TRANSACTION_COLUMN], row, TRANSACTION_COLUMN)?;
    let name = match &cells[NAME_COLUMN] {
        Some(text) => text.clone(),
        None => String::new(),
    };
    Ok(NjVolume::new(name, subscription, transaction, day.to_owned()))
}

proof fn lemma_error_persists(rows: Seq<Seq<Option<Seq<char>>>>, k: int, day: Seq<char>)
    requires
        0 <= k <= rows.len(),
        rows_outcome(rows.take(k), day) is Err,
    ensures
        rows_outcome(rows, day) == rows_outcome(rows.take(k), day),
    decreases rows.len(),
{
    if k == rows.len() {
        assert(rows.take(k) =~= rows);
    } else {
        assert(rows.drop_last().take(k) =~= rows.take(k));
        lemma_error_persists(rows.drop_last(), k, day);
    }
}

/// The records of a table given as rows of cell texts, for `day`: one record
/// per row in row order, or the error of the first row without one.
pub fn extract_rows(rows: &Vec<Vec<Option<String>>>, day: &str) -> (r: Result<
    Vec<NjVolume>,
    ExtractError,
>)
    ensures
        outcome_view(r) == rows_outcome(rows.deep_view(), day@),
{
    let ghost view = rows.deep_view();
    let mut records: Vec<NjVolume> = Vec::new();
    let mut i: usize = 0;
    assert(view.take(0).len() == 0);
    assert(records_view(records@) =~= Seq::<VolumeView>::empty());
    while i < rows.len()
        invariant
            i <= rows.len(),
            view == rows.deep_view(),
            rows_outcome(view.take(i as int), day@) == Ok::<Seq<VolumeView>, ExtractError>(
                records_view(records@),
            ),
        decreases rows.len() - i,
    {
        assert(view.take(i + 1).drop_last() =~= view.take(i as int));
        assert(view.take(i + 1).last() == rows@[i as int].deep_view());
        match extract_row(&rows[i], day, i) {
            Ok(record) => {
                let ghost before = records@;
                let ghost rv = record@;
                records.push(record);
                assert(records_view(records@) =~= records_view(before).push(rv));
            },
            Err(e) => {
                proof {
                    lemma_error_persists(view, i + 1, day@);
                }
                return Err(e);
            },
        }
        i = i + 1;
    }
    assert(view.take(i as int) =~= view);
    Ok(records)
}

/// The records of the day's page `html` for `day` (`YYYYMMDD`): one per row of
/// the table, in row order, or why there are none.
pub fn extract(html: &str, day: &str) -> (r: Result<Vec<NjVolume>, ExtractError>)
    ensures
        outcome_view(r) == page_outcome(html@, day@),
{
    match select_cells(html, ROW_SELECTOR, CELL_SELECTOR) {
        None => Err(ExtractError::Selector),
        Some(rows) => extract_rows(&rows, day),
    }
}

proof fn lemma_well_formed_rows(rows: Seq<Seq<Option<Seq<char>>>>, day: Seq<char>)
    requires
        forall|i: int| 0 <= i < rows.len() ==> row_well_formed(#[trigger] rows[i]),
    ensures
        rows_outcome(rows, day) is Ok,
        rows_outcome(rows, day)->Ok_0.len() == rows.len(),
        forall|i: int|
            0 <= i < rows.len() ==> row_outcome(#[trigger] rows[i], day, i as usize) is Ok
                && rows_outcome(rows, day)->Ok_0[i] == row_outcome(rows[i], day, i as usize)->Ok_0,
    decreases rows.len(),
{
    if rows.len() > 0 {
        let prefix = rows.drop_last();
        assert forall|i: int| 0 <= i < prefix.len() implies row_well_formed(#[trigger] prefix[i]) by {
            assert(prefix[i] == rows[i]);
        }
        lemma_well_formed_rows(prefix, day);
        assert(row_well_formed(rows[rows.len() - 1]));
        assert forall|i: int| 0 <= i < rows.len() implies row_outcome(
            #[trigger] rows[i],
            day,
            i as usize,
        ) is Ok && rows_outcome(rows, day)->Ok_0[i] == row_outcome(rows[i], day, i as usize)->Ok_0 by {
            if i < rows.len() - 1 {
                assert(prefix[i] == rows[i]);
            }
        }
    }
}

/// Where every row of the page's table has the table's layout (at least
/// `MIN_CELLS` cells, and a count in each count cell), extraction succeeds with
/// exactly one record per row, in row order: record `i` holds row `i`'s name
/// and counts, and its day is the given day, never one read from the page.
pub proof fn lemma_one_record_per_row(html: Seq<char>, day: Seq<char>)
    requires
        selected_cells(html, ROW_SELECTOR@, CELL_SELECTOR@) is Some,
        forall|i: int|
            0 <= i < selected_cells(html, ROW_SELECTOR@, CELL_SELECTOR@)->0.len() ==> row_well_formed(
                #[trigger] selected_cells(html, ROW_SELECTOR@, CELL_SELECTOR@)->0[i],
            ),
    ensures
        page_outcome(html, day) is Ok,
        page_outcome(html, day)->Ok_0.len() == selected_cells(
            html,
            ROW_SELECTOR@,
            CELL_SELECTOR@,
        )->0.len(),
        forall|i: int|
            0 <= i < page_outcome(html, day)->Ok_0.len() ==> {
                let cells = selected_cells(html, ROW_SELECTOR@, CELL_SELECTOR@)->0[i];
                &&& (#[trigger] page_outcome(html, day)->Ok_0[i]).day == day
                &&& page_outcome(html, day)->Ok_0[i].name == cell_text(cells[NAME_COLUMN as int])
                &&& Some(page_outcome(html, day)->Ok_0[i].subscription) == parse_u32(
                    cell_text(cells[SUBSCRIPTION_COLUMN as int]),
                )
                &&& Some(page_outcome(html, day)->Ok_0[i].transaction) == parse_u32(
                    cell_text(cells[TRANSACTION_COLUMN as int]),
                )
            },
{
    let rows = selected_cells(html, ROW_SELECTOR@, CELL_SELECTOR@)->0;
    lemma_well_formed_rows(rows, day);
    assert forall|i: int| 0 <= i < page_outcome(html, day)->Ok_0.len() implies {
        let cells = rows[i];
        &&& (#[trigger] page_outcome(html, day)->Ok_0[i]).day == day
        &&& page_outcome(html, day)->Ok_0[i].name == cell_text(cells[NAME_COLUMN as int])
        &&& Some(page_outcome(html, day)->Ok_0[i].subscription) == parse_u32(
            cell_text(cells[SUBSCRIPTION_COLUMN as int]),
        )
        &&& Some(page_outcome(html, day)->Ok_0[i].transaction) == parse_u32(
            cell_text(cells[TRANSACTION_COLUMN as int]),
        )
    } by {
        assert(row_well_formed(rows[i]));
        assert(row_outcome(rows[i], day, i as usize) is Ok);
    }
}

} // verus!
