# eips

Term frequency, written in many programming styles: each style reads a text file and a
file of comma-separated stop words, counts the words that are not stop words, and prints the
most frequent ones.

- `src/` is the library, verified with Verus. `freq`, `order`, `report`, `words`, `text` and
  `normalize` hold what the styles share (tables of counts, their merging and sorting, the
  report lines, the splitting of text into words); `tf` holds the common report and the laws
  that relate the styles' ways of filtering and sorting. Every other module is one style;
  for the styles that use threads, callbacks or a database, the module holds each step's
  decision and the program around it lives in `app/`.
- `app/` is the program: the menu, the files, the threads and channels, the callbacks.
- `tests/` runs the library on small texts.

## Collections

The word tables are vectors with an invariant rather than std maps and sets:

- `freq::FreqTable` (a `Vec` of `(String, i32)` pairs whose words are distinct, kept in order of
  first occurrence) stands where a `HashMap<String, i32>` would count words, and
  `words::StopWords` (a `Vec<String>`) where a `HashSet<String>` would hold the stop words.
  vstd specifies `HashMap` and `HashSet` only for key types that obey its key model, which it
  grants to `bool` and the integer types; nothing is known of a `String`-keyed map, so no
  contract about the counts could be proved through one.
- `actors::SortFrequencies` keeps the entries ordered by count and word in a `Vec`, where a
  `BTreeMap<(i32, String), bool>` would: the same limit holds for a map keyed by a tuple
  holding a `String`.
- Sorting is `order::sort_pairs`, an insertion sort proved against `order::sort_entries`:
  vstd gives no specification of the slice sorts.

## The database style

`persistent_tables` runs its statements on an in-memory SQLite database. The contracts speak
of the statements run through the connection and of the rows SQLite gives for a query after
them; both are stated by the wrappers of the `sqlite` calls, and the library states what it
hands to SQLite and what it writes out of the rows.
