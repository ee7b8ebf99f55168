//! Daily real-estate volume figures: the calendar walk over a range of days,
//! the page address of each day, the extraction of per-project records from
//! the day's HTML table, and the statements that store them.

pub mod calendar;
pub mod decimal;
pub mod extract;
pub mod source;
pub mod store;
pub mod volume;

pub use calendar::{Day, DayRange};
pub use decimal::parse_decimal;
pub use extract::{
    extract, extract_row, extract_rows, ExtractError, CELL_SELECTOR, MIN_CELLS, NAME_COLUMN,
    ROW_SELECTOR, SUBSCRIPTION_COLUMN, TRANSACTION_COLUMN,
};
pub use source::{page_url, PAGE_ROOT};
pub use store::{INSERT_SQL, TABLE_SQL};
pub use volume::{NjVolume, VolumeView};
