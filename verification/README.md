# storage_sqlite

The budget part of a spending tracker's SQLite storage: budget groups, the
assignment of categories to groups, monthly and default budget targets
(including group buffers), and rollover settings.

- `src/` is a Verus-verified library. The four tables are held as rows
  (`tables::BudgetTables`), and every repository operation is a state
  transition on them with a contract over the rows' characters: listing
  (groups ordered by sort order, then name bytes), creating and changing
  groups, deleting a group into another (moving its categories and merging
  its buffers, month by month, by decimal sums), setting and deleting
  targets and rollover settings, copying a month's targets, and placing
  categories in groups. `laws.rs` proves properties across operations:
  identifiers stay unique, one target per month and key and one setting per
  key are kept (also by a deletion, and over all rows when the set row has
  its key fields), a set value reads back, setting the
  same target or rollover setting again at any later time keeps its row and
  only moves its change stamp (at the same time stamp it changes nothing),
  copying a month or turning off rollovers a second time changes nothing
  but stamps, a batch of placements adds one assignment per category that
  had none, a deleted group leaves nothing behind, and after a deletion the
  destination's buffer for each month holds the normalized `rust_decimal`
  sum of the two buffers that counted before (the sum `rust_decimal`
  computes is named, not spelled out, while the text it is written as is
  spelled out as `Display` writes it; the deletion itself states the law for
  every month). `changes.rs` computes which rows to
  write and which to delete between two states.
- Decimal arithmetic (`rust_decimal`), time stamps (`chrono`) and identifiers
  (`uuid`) are called through small trusted wrappers whose contracts name
  what those crates compute; of a random identifier only its version 4
  shape is claimed.
- `app/` is the diesel side: it loads the tables in a write transaction,
  runs the verified operation, and writes back the changed rows (an update
  where the row exists, else an insert) with one sync outbox event each.
