use eips::persistent_tables::{
    insert_statement_string, persistent_tables_test, query_string, rows_report, words_for_table, DbError, MyDataBase,
    INSERT_STOP_WORD, INSERT_WORD,
};

/// apple 6, banana 5, cherry 4, the 7 (a stop word), x 10 (one byte).
fn sample_text() -> String {
    "Apple apple, APPLE. the apple! x x x; the banana banana banana cherry \
     the apple x x the cherry x cherry banana x the banana x x the cherry the x apple"
        .to_string()
}

#[test]
fn insert_statements_quote_the_word() {
    let w = "cat".to_string();
    assert_eq!(insert_statement_string(INSERT_WORD, &w), "INSERT into words (word) values (\"cat\")");
    assert_eq!(
        insert_statement_string(INSERT_STOP_WORD, &w),
        "INSERT into stop_words (stop_word) values (\"cat\")"
    );
}

#[test]
fn query_holds_the_threshold() {
    let q = query_string(4);
    assert!(q.starts_with("SELECT word, count(word) from words"));
    assert!(q.contains("HAVING COUNT(word) > 4\n"));
    assert!(q.contains("ORDER BY COUNT(word) DESC;"));
    assert!(query_string(4000000000).contains("> 4000000000\n"));
}

#[test]
fn table_words_split_at_single_spaces() {
    assert_eq!(
        words_for_table("It's OK!"),
        vec!["it".to_string(), "s".to_string(), "ok".to_string(), "".to_string()]
    );
}

#[test]
fn rows_are_written_one_line_each() {
    let rows = vec![("apple".to_string(), 6i64), ("pear".to_string(), 5i64)];
    assert_eq!(rows_report(&rows), "apple - 6\npear - 5\n");
    assert_eq!(rows_report(&Vec::new()), "");
}

#[test]
fn database_counts_frequent_words() {
    let mut db = MyDataBase::new().unwrap();
    assert_eq!(persistent_tables_test(&mut db, &sample_text(), "the,and"), Ok("apple - 6\nbanana - 5\n".to_string()));
    assert_eq!(persistent_tables_test(&mut db, &sample_text(), "the,and"), Err(DbError::BuildDataBase));
}

#[test]
fn database_steps() {
    let mut db = MyDataBase::new().unwrap();
    assert_eq!(db.query_top_words(0), Err(DbError::Query));
    db.build_data_base().unwrap();
    assert_eq!(db.build_data_base(), Err(DbError::BuildDataBase));
    db.fill_table_words("bb aa bb cc bb z").unwrap();
    db.fill_table_stop_words("cc").unwrap();
    let rows = db.query_top_words(0).unwrap();
    assert_eq!(rows, vec![("bb".to_string(), 3), ("aa".to_string(), 1)]);
}

#[test]
fn inserting_before_the_tables_exist_fails() {
    let mut db = MyDataBase::new().unwrap();
    assert_eq!(db.fill_table_words("some words"), Err(DbError::InsertWord));
    assert_eq!(db.fill_table_stop_words("some,words"), Err(DbError::InsertStopWord));
}

#[test]
fn a_stop_word_that_breaks_the_statement_fails() {
    let mut db = MyDataBase::new().unwrap();
    db.build_data_base().unwrap();
    assert_eq!(db.fill_table_stop_words("ok,bad\"word"), Err(DbError::InsertStopWord));
}

#[test]
fn a_query_leaves_the_database_as_it_was() {
    let mut db = MyDataBase::new().unwrap();
    db.build_data_base().unwrap();
    db.fill_table_words("ox ox cow ox cow hen").unwrap();
    db.fill_table_stop_words("hen").unwrap();
    let first = db.query_top_words(1).unwrap();
    assert_eq!(first, vec![("ox".to_string(), 3), ("cow".to_string(), 2)]);
    assert_eq!(db.query_top_words(1).unwrap(), first);
    assert_eq!(db.query_top_words(2).unwrap(), vec![("ox".to_string(), 3)]);
    db.fill_table_words("cow cow").unwrap();
    assert_eq!(db.query_top_words(2).unwrap(), vec![("cow".to_string(), 4), ("ox".to_string(), 3)]);
}
