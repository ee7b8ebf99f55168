use crate::decimal::{padded, push_padded};
use vstd::prelude::*;

verus! {

/// The address under which the daily pages are published.
pub const PAGE_ROOT: &'static str = "https://www.njhouse.com.cn/include/everyday/";

/// The address of the page of `day` (`YYYYMMDD`) in `year`:
/// `PAGE_ROOT`, the four-digit year, `/dist`, the day and `.htm`.
pub open spec fn page_address(year: int, day: Seq<char>) -> Seq<char> {
    PAGE_ROOT@ + padded(year, 4) + "/dist"@ + day + ".htm"@
}

/// The address of the page that holds the figures of `day` (`YYYYMMDD`), a day of `year`.
pub fn page_url(year: i32, day: &str) -> (r: String)
    requires
        0 <= year <= 9999,
    ensures
        r@ == page_address(year as int, day@),
{
    let mut s = String::from_str(PAGE_ROOT);
    push_padded(&mut s, year as u32, 4);
    s.append("/dist");
    s.append(day);
    s.append(".htm");
    s
}

} // verus!
