//! Persistent tables: the words and the stop words go into the tables of an in-memory SQLite
//! database, and one query counts the frequent words. The statements are built and checked
//! here; SQLite runs them.
use vstd::prelude::*;
use vstd::string::{StringExecFns, StrSliceExecFns};
use sqlite::{Connection, State, Statement};
use crate::normalize::{replace_non_word, replace_non_word_runs};
use crate::report::{LineStyle, decimal, line, push_decimal, push_line};
use crate::text::{Separator, lowercase, pieces, split_pieces, to_lowercase};
use crate::words::stop_word_pieces;

verus! {

#[verifier::external_type_specification]
#[verifier::external_body]
pub struct ExConnection(sqlite::Connection);

#[verifier::external_type_specification]
#[verifier::external_body]
pub struct ExStatement<'l>(sqlite::Statement<'l>);

#[verifier::external_type_specification]
#[verifier::external_body]
pub struct ExSqliteError(sqlite::Error);

/// The statements that `Connection::execute` has run to completion through a connection, each
/// as the text it was handed, in order, since the connection was opened on an empty in-memory
/// database.
pub uninterp spec fn statements_run(connection: Connection) -> Seq<Seq<char>>;

/// The rows of the query that `query` begins with, on an in-memory database that started empty
/// and then ran the statements `run`, in the order in which SQLite steps through them; each row
/// as the text of its first column and the integer of its second column.
pub uninterp spec fn query_rows(run: Seq<Seq<char>>, query: Seq<char>) -> Seq<(Seq<char>, int)>;

/// The rows of a prepared statement's query, in the order in which stepping gives them.
pub uninterp spec fn statement_rows(statement: Statement) -> Seq<(Seq<char>, int)>;

/// The rows a prepared statement has stepped onto, in order, while it is on a row (the last one
/// is the current row); empty before its first step and once it has reported that it is done.
pub uninterp spec fn rows_stepped(statement: Statement) -> Seq<(Seq<char>, int)>;

/// `sqlite::open` on the in-memory database: a new connection to an empty database, through
/// which no statement has run yet. Whether it succeeds depends on the machine.
#[verifier::external_body]
fn open(path: &str) -> (r: Result<Connection, sqlite::Error>)
    requires
        path@ == DATABASE_PATH@,
    ensures
        r matches Ok(c) ==> statements_run(c) == Seq::<Seq<char>>::empty(),
{
    sqlite::open(path)
}

/// `Connection::execute`: runs the statements of `statement`. When it succeeds, `statement` is
/// the last statement run through the connection. Whether it succeeds depends on the state of
/// the database; after a failure nothing is stated of that state, since the statements of the
/// text before the failing one may have run.
#[verifier::external_body]
fn execute(connection: &mut Connection, statement: &str) -> (r: Result<(), sqlite::Error>)
    ensures
        r is Ok ==> statements_run(*final(connection)) == statements_run(*old(connection)).push(statement@),
{
    connection.execute(statement)
}

/// `Connection::prepare`: prepares the query `statement`. When it succeeds, the statement's rows
/// are the rows of that query after the statements run through the connection, and it has not
/// stepped yet. Whether it succeeds depends on the query and the database.
#[verifier::external_body]
fn prepare<'l>(connection: &'l Connection, statement: &str) -> (r: Result<Statement<'l>, sqlite::Error>)
    ensures
        r matches Ok(st) ==> statement_rows(st) == query_rows(statements_run(*connection), statement@)
            && rows_stepped(st) == Seq::<(Seq<char>, int)>::empty(),
{
    connection.prepare(statement)
}

/// `Statement::next`: steps the query; `true` when it is on the next of its rows, `false` when
/// it has given them all (and is done). Whether a step fails depends on the database.
#[verifier::external_body]
fn next_row(statement: &mut Statement) -> (r: Result<bool, sqlite::Error>)
    ensures
        statement_rows(*final(statement)) == statement_rows(*old(statement)),
        r matches Ok(true) ==> rows_stepped(*old(statement)).len() < statement_rows(*old(statement)).len()
            && rows_stepped(*final(statement)) == statement_rows(*old(statement)).take(
            rows_stepped(*old(statement)).len() + 1int,
        ),
        r matches Ok(false) ==> rows_stepped(*old(statement)).len() == statement_rows(*old(statement)).len()
            && rows_stepped(*final(statement)) == Seq::<(Seq<char>, int)>::empty(),
{
    match statement.next() {
        Ok(State::Row) => Ok(true),
        Ok(State::Done) => Ok(false),
        Err(e) => Err(e),
    }
}

/// `Statement::read::<String, usize>`: the text in column `column` of the current row; for the
/// first column, the text of the current row.
#[verifier::external_body]
fn read_text(statement: &Statement, column: usize) -> (r: Result<String, sqlite::Error>)
    ensures
        column == 0 && rows_stepped(*statement).len() > 0 ==> (r matches Ok(s) ==> s@ == rows_stepped(
            *statement,
        ).last().0),
{
    statement.read::<String, usize>(column)
}

/// `Statement::read::<i64, usize>`: the integer in column `column` of the current row; for the
/// second column, the integer of the current row.
#[verifier::external_body]
fn read_integer(statement: &Statement, column: usize) -> (r: Result<i64, sqlite::Error>)
    ensures
        column == 1 && rows_stepped(*statement).len() > 0 ==> (r matches Ok(n) ==> n == rows_stepped(
            *statement,
        ).last().1),
{
    statement.read::<i64, usize>(column)
}

/// The database that the style opens.
pub const DATABASE_PATH: &'static str = ":memory:";

/// The statements that create the two tables.
pub const CREATE_TABLES: &'static str = "CREATE TABLE words (
                        Id integer primary key autoincrement , 
                        word varchar(60));
                      
                      CREATE TABLE stop_words (
                        Id integer primary key autoincrement , 
                        stop_word varchar(60));";

/// The statement that inserts a word, before the word.
pub const INSERT_WORD: &'static str = "INSERT into words (word) values (\"";

/// The statement that inserts a stop word, before the word.
pub const INSERT_STOP_WORD: &'static str = "INSERT into stop_words (stop_word) values (\"";

/// What closes an insert statement, after the word.
pub const INSERT_END: &'static str = "\")";

/// The query of the frequent words, before the threshold.
pub const QUERY_HEAD: &'static str = "SELECT word, count(word) from words 
                WHERE word not in 
                (
                    SELECT stop_word FROM stop_words
                )
                AND LENGTH(word) > 1
                GROUP BY word
                HAVING COUNT(word) > ";

/// The query of the frequent words, after the threshold.
pub const QUERY_TAIL: &'static str = "
                ORDER BY COUNT(word) DESC;
            ";

/// Why the database work stopped.
#[derive(PartialEq, Eq, Structural, Clone, Copy, Debug)]
pub enum DbError {
    /// The database could not be opened.
    Connection,
    /// The tables could not be created.
    BuildDataBase,
    /// A word could not be inserted.
    InsertWord,
    /// A stop word could not be inserted.
    InsertStopWord,
    /// The query could not be run or its rows could not be read.
    Query,
}

/// The statement that inserts `w` after `head`.
pub open spec fn insert_statement(head: Seq<char>, w: Seq<char>) -> Seq<char> {
    head + w + INSERT_END@
}

/// The insert statements of a word list, in order.
pub open spec fn insert_statements(head: Seq<char>, ws: Seq<Seq<char>>) -> Seq<Seq<char>> {
    ws.map_values(|w: Seq<char>| insert_statement(head, w))
}

/// The query of the words counted more than `top` times.
pub open spec fn query_text(top: u32) -> Seq<char> {
    QUERY_HEAD@ + decimal(top as int) + QUERY_TAIL@
}

/// The words that go into the table of words: the text with every run of non-word characters
/// replaced by one space, lower-cased, and split at every single space (empty pieces too).
pub open spec fn table_words(text: Seq<char>) -> Seq<Seq<char>> {
    pieces(lowercase(replace_non_word_runs(text)), Separator::Char(' '))
}

/// The `"{} - {}\n"` lines of the rows of a query, in order.
pub open spec fn row_lines(rows: Seq<(Seq<char>, int)>) -> Seq<char>
    decreases rows.len(),
{
    if rows.len() == 0 {
        Seq::empty()
    } else {
        row_lines(rows.drop_last()) + line(LineStyle::Dash, rows.last().0, rows.last().1)
    }
}

/// The lines of two row lists one after the other are the lines of the first followed by the
/// lines of the second: every row is written, once, in its place.
pub proof fn lemma_row_lines_append(a: Seq<(Seq<char>, int)>, b: Seq<(Seq<char>, int)>)
    ensures
        row_lines(a + b) == row_lines(a) + row_lines(b),
    decreases b.len(),
{
    if b.len() == 0 {
        assert(a + b =~= a);
        assert(row_lines(a) + row_lines(b) =~= row_lines(a));
    } else {
        lemma_row_lines_append(a, b.drop_last());
        assert((a + b).drop_last() =~= a + b.drop_last());
        assert((a + b).last() == b.last());
        let l = line(LineStyle::Dash, b.last().0, b.last().1);
        assert(row_lines(a) + row_lines(b.drop_last()) + l =~= row_lines(a) + (row_lines(b.drop_last()) + l));
    }
}

/// One row is written as its `"{} - {}\n"` line, whatever its count.
pub proof fn lemma_row_lines_one(x: (Seq<char>, int))
    ensures
        row_lines(seq![x]) == line(LineStyle::Dash, x.0, x.1),
{
    let r = seq![x];
    assert(r.drop_last() =~= Seq::<(Seq<char>, int)>::empty());
    assert(r.last() == x);
    assert(row_lines(r.drop_last()) == Seq::<char>::empty());
    assert(row_lines(r) == row_lines(r.drop_last()) + line(LineStyle::Dash, x.0, x.1));
    assert(Seq::<char>::empty() + line(LineStyle::Dash, x.0, x.1) =~= line(LineStyle::Dash, x.0, x.1));
}

/// The rows as a word and an integer each.
pub open spec fn rows_view(rows: Seq<(String, i64)>) -> Seq<(Seq<char>, int)> {
    rows.map_values(|r: (String, i64)| (r.0@, r.1 as int))
}

/// The statement that inserts `w` after `head`.
pub fn insert_statement_string(head: &str, w: &String) -> (s: String)
    ensures
        s@ == insert_statement(head@, w@),
{
    let mut s = String::from_str(head);
    s.append(w.as_str());
    s.append(INSERT_END);
    s
}

/// The query of the words counted more than `top` times.
pub fn query_string(top: u32) -> (s: String)
    ensures
        s@ == query_text(top),
{
    let mut s = String::from_str(QUERY_HEAD);
    push_decimal(&mut s, top as i64);
    s.append(QUERY_TAIL);
    s
}

/// The words that go into the table of words.
pub fn words_for_table(text: &str) -> (ws: Vec<String>)
    ensures
        ws.deep_view() == table_words(text@),
{
    let replaced = replace_non_word(text);
    let lower = to_lowercase(replaced.as_str());
    split_pieces(lower.as_str(), Separator::Char(' '))
}

/// The `"{} - {}\n"` lines of the rows, in order.
pub fn rows_report(rows: &Vec<(String, i64)>) -> (s: String)
    ensures
        s@ == row_lines(rows_view(rows@)),
{
    let mut s = String::new();
    let mut i: usize = 0;
    while i < rows.len()
        invariant
            i <= rows.len(),
            s@ == row_lines(rows_view(rows@).take(i as int)),
        decreases rows.len() - i,
    {
        let ghost t = rows_view(rows@).take(i + 1);
        assert(t.drop_last() =~= rows_view(rows@).take(i as int));
        assert(t.last() == (rows@[i as int].0@, rows@[i as int].1 as int));
        push_line(&mut s, LineStyle::Dash, &rows[i].0, rows[i].1);
        i = i + 1;
    }
    assert(rows_view(rows@).take(i as int) =~= rows_view(rows@));
    s
}

/// Runs a query and reads each row as a text and an integer, in order.
fn read_rows(connection: &Connection, query: &str) -> (r: Result<Vec<(String, i64)>, DbError>)
    ensures
        r matches Ok(rows) ==> rows_view(rows@) == query_rows(statements_run(*connection), query@),
        r matches Err(e) ==> e == DbError::Query,
{
    let mut statement = match prepare(connection, query) {
        Ok(st) => st,
        Err(_) => {
            return Err(DbError::Query);
        },
    };
    let ghost all = statement_rows(statement);
    let mut rows: Vec<(String, i64)> = Vec::new();
    loop
        invariant
            all == query_rows(statements_run(*connection), query@),
            statement_rows(statement) == all,
            rows_view(rows@) == rows_stepped(statement),
            rows_stepped(statement) == all.take(rows@.len() as int),
            rows@.len() <= all.len(),
        decreases all.len() - rows@.len(),
    {
        match next_row(&mut statement) {
            Ok(true) => {
                let w = match read_text(&statement, 0) {
                    Ok(w) => w,
                    Err(_) => {
                        return Err(DbError::Query);
                    },
                };
                let n = match read_integer(&statement, 1) {
                    Ok(n) => n,
                    Err(_) => {
                        return Err(DbError::Query);
                    },
                };
                let ghost before = rows@;
                rows.push((w, n));
                proof {
                    assert(all.take(before.len() + 1int).last() == all[before.len() as int]);
                    assert(rows_view(rows@) =~= all.take(before.len() + 1int));
                }
            },
            Ok(false) => {
                assert(all.take(rows@.len() as int) =~= all);
                return Ok(rows);
            },
            Err(_) => {
                return Err(DbError::Query);
            },
        }
    }
}

/// The in-memory database of the style.
pub struct MyDataBase {
    connection: Connection,
}

impl MyDataBase {
    /// The statements run to completion on the database, in order.
    pub closed spec fn log(&self) -> Seq<Seq<char>> {
        statements_run(self.connection)
    }

    /// Opens a new in-memory database.
    pub fn new() -> (r: Result<MyDataBase, DbError>)
        ensures
            r matches Ok(db) ==> db.log() == Seq::<Seq<char>>::empty(),
            r matches Err(e) ==> e == DbError::Connection,
    {
        match open(DATABASE_PATH) {
            Ok(c) => Ok(MyDataBase { connection: c }),
            Err(_) => Err(DbError::Connection),
        }
    }

    /// Creates the table of words and the table of stop words.
    pub fn build_data_base(&mut self) -> (r: Result<(), DbError>)
        ensures
            r is Ok ==> final(self).log() == old(self).log().push(CREATE_TABLES@),
            r matches Err(e) ==> e == DbError::BuildDataBase,
    {
        match execute(&mut self.connection, CREATE_TABLES) {
            Ok(()) => Ok(()),
            Err(_) => Err(DbError::BuildDataBase),
        }
    }

    /// Runs the insert statement of each word after `head`, in order, up to the first that fails.
    fn insert_all(&mut self, head: &str, ws: &Vec<String>, failure: DbError) -> (r: Result<(), DbError>)
        ensures
            r is Ok ==> final(self).log() == old(self).log() + insert_statements(head@, ws.deep_view()),
            r matches Err(e) ==> e == failure,
    {
        let mut i: usize = 0;
        while i < ws.len()
            invariant
                i <= ws.len(),
                self.log() == old(self).log() + insert_statements(head@, ws.deep_view().take(i as int)),
            decreases ws.len() - i,
        {
            let statement = insert_statement_string(head, &ws[i]);
            match execute(&mut self.connection, statement.as_str()) {
                Ok(()) => {
                    assert(insert_statements(head@, ws.deep_view().take(i + 1)) =~= insert_statements(
                        head@,
                        ws.deep_view().take(i as int),
                    ).push(insert_statement(head@, ws[i as int]@)));
                    assert(self.log() =~= old(self).log() + insert_statements(head@, ws.deep_view().take(i + 1)));
                },
                Err(_) => {
                    return Err(failure);
                },
            }
            i = i + 1;
        }
        assert(ws.deep_view().take(i as int) =~= ws.deep_view());
        Ok(())
    }

    /// Inserts the words of a text into the table of words, in order.
    pub fn fill_table_words(&mut self, text: &str) -> (r: Result<(), DbError>)
        ensures
            r is Ok ==> final(self).log() == old(self).log() + insert_statements(INSERT_WORD@, table_words(text@)),
            r matches Err(e) ==> e == DbError::InsertWord,
    {
        let ws = words_for_table(text);
        self.insert_all(INSERT_WORD, &ws, DbError::InsertWord)
    }

    /// Inserts the stop words of the stop-word file's text (its pieces between commas) into
    /// the table of stop words, in order.
    pub fn fill_table_stop_words(&mut self, stop_text: &str) -> (r: Result<(), DbError>)
        ensures
            r is Ok ==> final(self).log() == old(self).log() + insert_statements(
                INSERT_STOP_WORD@,
                stop_word_pieces(stop_text@),
            ),
            r matches Err(e) ==> e == DbError::InsertStopWord,
    {
        let ws = split_pieces(stop_text, Separator::Char(','));
        assert(ws.deep_view() == stop_word_pieces(stop_text@));
        self.insert_all(INSERT_STOP_WORD, &ws, DbError::InsertStopWord)
    }

    /// Runs the query of the words that are no stop words, have two characters or more and are
    /// counted more than `top` times, by descending count; gives its rows, which are the rows
    /// of that query after the statements run so far.
    pub fn query_top_words(&mut self, top: u32) -> (r: Result<Vec<(String, i64)>, DbError>)
        ensures
            final(self).log() == old(self).log(),
            r matches Ok(rows) ==> rows_view(rows@) == query_rows(old(self).log(), query_text(top)),
            r matches Err(e) ==> e == DbError::Query,
    {
        let query = query_string(top);
        read_rows(&self.connection, query.as_str())
    }
}

/// The statements that a run of the style runs on a text and a stop-word file's text before
/// its query: the tables are created, then the words and then the stop words inserted.
pub open spec fn run_statements(text: Seq<char>, stop_text: Seq<char>) -> Seq<Seq<char>> {
    seq![CREATE_TABLES@] + insert_statements(INSERT_WORD@, table_words(text)) + insert_statements(
        INSERT_STOP_WORD@,
        stop_word_pieces(stop_text),
    )
}

/// The persistent-tables style run through on a database: the tables are built, the words and
/// the stop words are inserted, and the rows of the query of the words counted more than four
/// times are written out, one `"{} - {}\n"` line each. The run stops at the first step that
/// fails, with the error of that step.
pub fn persistent_tables_test(db: &mut MyDataBase, text: &str, stop_text: &str) -> (r: Result<String, DbError>)
    ensures
        r is Ok ==> final(db).log() == old(db).log() + run_statements(text@, stop_text@),
        r matches Ok(s) ==> s@ == row_lines(query_rows(old(db).log() + run_statements(text@, stop_text@), query_text(4))),
        r matches Err(e) ==> e != DbError::Connection,
        r == Err::<String, DbError>(DbError::Query) ==> final(db).log() == old(db).log() + run_statements(text@, stop_text@),
{
    let ghost log0 = db.log();
    match db.build_data_base() {
        Ok(()) => {},
        Err(e) => {
            return Err(e);
        },
    }
    match db.fill_table_words(text) {
        Ok(()) => {},
        Err(e) => {
            return Err(e);
        },
    }
    match db.fill_table_stop_words(stop_text) {
        Ok(()) => {},
        Err(e) => {
            return Err(e);
        },
    }
    assert(db.log() =~= log0 + run_statements(text@, stop_text@));
    let rows = match db.query_top_words(4) {
        Ok(rows) => rows,
        Err(e) => {
            return Err(e);
        },
    };
    let s = rows_report(&rows);
    Ok(s)
}

} // verus!
