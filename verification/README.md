# feed_channel

The feed and channel bookkeeping of an RSS reader, verified with Verus.

- `src/` is the library. It never touches the database: each function takes
  the rows a query returned and computes what the reader shows, or which
  statement it runs next.
  - `records`: the rows and results (channels, placements, folders, unread
    counts, feed entries) and their views.
  - `channels`: a channel by uuid, the last top-level position, the channel
    list with the folder of each channel.
  - `unread`: unread totals of channels and folders.
  - `feeds`: the feed list (folders with their channels, then the channels
    outside every folder), ordered by position with a stable sort.
  - `ordering`: the statements that store a reordering.
  - `removal`, `subscription`: the steps of removing and of adding a channel,
    as functions from step and answer to next step and statement.
- `app/` holds the database access (diesel over SQLite) and the serde copies
  of the records, and drives the library.
- `tests/` runs the library on concrete rows.
