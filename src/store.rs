use vstd::prelude::*;

verus! {

/// Creates the table of daily figures where it is missing, and leaves an
/// existing one and its rows as they are. No key and no uniqueness constraint:
/// every insert adds a row.
pub const TABLE_SQL: &'static str = "CREATE TABLE IF NOT EXISTS njhp (
    name TEXT NOT NULL,
    sub INTEGER NOT NULL,
    trans INTEGER NOT NULL,
    day TEXT NOT NULL
)";

/// Adds one record; its parameters are the name, the subscriptions, the
/// transactions and the day, in this order.
pub const INSERT_SQL: &'static str = "INSERT INTO njhp (name, sub, trans, day) VALUES (?, ?, ?, ?)";

} // verus!
