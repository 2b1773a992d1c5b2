use eips::freq::FreqTable;
use eips::normalize::{replace_first_non_word, replace_non_word};
use eips::order::{before, sort_pairs, word_less};
use eips::report::{decimal_string, line_string, report_string, LineStyle};
use eips::text::{chars_of, split_closed_runs, split_pieces, split_runs, Separator};
use eips::words::{has_min_bytes, lowercase_each, normalize_text, select_words, words_of_text, StopWords, WordFilter};

fn strings(ws: &[&str]) -> Vec<String> {
    ws.iter().map(|w| w.to_string()).collect()
}

fn pairs(ps: &[(&str, i32)]) -> Vec<(String, i32)> {
    ps.iter().map(|(w, n)| (w.to_string(), *n)).collect()
}

#[test]
fn table_counts_in_order_of_first_occurrence() {
    let t = FreqTable::from_words(&strings(&["b", "a", "b", "c", "b", "a"]));
    assert_eq!(t.entries(), pairs(&[("b", 3), ("a", 2), ("c", 1)]));
    assert_eq!(t.len(), 3);
    assert_eq!(t.count(&"b".to_string()), 3);
    assert_eq!(t.count(&"z".to_string()), 0);
}

#[test]
fn table_add_updates_in_place_or_appends() {
    let mut t = FreqTable::new();
    t.add(&"x".to_string(), 2);
    t.add(&"y".to_string(), 5);
    t.add(&"x".to_string(), 3);
    t.increment(&"z".to_string());
    assert_eq!(t.entries(), pairs(&[("x", 5), ("y", 5), ("z", 1)]));
    let e = t.entry(1);
    assert_eq!(e, ("y".to_string(), 5));
}

#[test]
fn merged_adds_counts_and_appends_new_words() {
    let a = FreqTable::from_words(&strings(&["a", "b", "a"]));
    let b = FreqTable::from_words(&strings(&["c", "a", "c"]));
    let m = a.merged(&b);
    assert_eq!(m.entries(), pairs(&[("a", 3), ("b", 1), ("c", 2)]));
    let n = b.merged(&a);
    assert_eq!(n.entries(), pairs(&[("c", 2), ("a", 3), ("b", 1)]));
    for w in ["a", "b", "c", "d"] {
        assert_eq!(m.count(&w.to_string()), n.count(&w.to_string()));
    }
}

#[test]
fn merging_counted_halves_counts_the_whole() {
    let all = strings(&["x", "y", "x", "z", "y", "x", "w"]);
    let left = FreqTable::from_words(&all[..3].to_vec());
    let right = FreqTable::from_words(&all[3..].to_vec());
    let whole = FreqTable::from_words(&all);
    let merged = left.merged(&right);
    for w in ["x", "y", "z", "w", "v"] {
        assert_eq!(merged.count(&w.to_string()), whole.count(&w.to_string()));
    }
}

#[test]
fn merging_is_associative_in_counts() {
    let a = FreqTable::from_words(&strings(&["p", "q"]));
    let b = FreqTable::from_words(&strings(&["q", "r", "r"]));
    let c = FreqTable::from_words(&strings(&["r", "p", "s"]));
    let left = a.merged(&b).merged(&c);
    let right = a.merged(&b.merged(&c));
    for w in ["p", "q", "r", "s"] {
        assert_eq!(left.count(&w.to_string()), right.count(&w.to_string()));
    }
    let empty = FreqTable::new();
    assert_eq!(a.merged(&empty).entries(), a.entries());
}

#[test]
fn can_merge_detects_overflow() {
    let mut a = FreqTable::new();
    a.add(&"w".to_string(), i32::MAX - 1);
    let mut b = FreqTable::new();
    b.add(&"w".to_string(), 1);
    assert!(a.can_merge(&b));
    b.increment(&"w".to_string());
    assert!(!a.can_merge(&b));
    let mut c = FreqTable::new();
    c.add(&"other".to_string(), 7);
    assert!(a.can_merge(&c));
}

#[test]
fn duplicate_copies_entries() {
    let t = FreqTable::from_words(&strings(&["k", "k", "j"]));
    assert_eq!(t.duplicate().entries(), t.entries());
}

#[test]
fn sort_by_count_is_stable() {
    let v = pairs(&[("a", 1), ("b", 3), ("c", 2), ("d", 3), ("e", 1)]);
    assert_eq!(sort_pairs(&v, false), pairs(&[("b", 3), ("d", 3), ("c", 2), ("a", 1), ("e", 1)]));
}

#[test]
fn sort_by_count_then_word_descending() {
    let v = pairs(&[("a", 1), ("b", 3), ("c", 2), ("d", 3), ("e", 1)]);
    assert_eq!(sort_pairs(&v, true), pairs(&[("d", 3), ("b", 3), ("c", 2), ("e", 1), ("a", 1)]));
}

#[test]
fn word_order_is_lexicographic() {
    assert!(word_less(&"ab".to_string(), &"b".to_string()));
    assert!(word_less(&"ab".to_string(), &"abc".to_string()));
    assert!(!word_less(&"abc".to_string(), &"abc".to_string()));
    assert!(!word_less(&"b".to_string(), &"ab".to_string()));
    assert!(word_less(&"".to_string(), &"a".to_string()));
    assert!(before(&("x".to_string(), 2), &("y".to_string(), 1), false));
    assert!(!before(&("x".to_string(), 2), &("y".to_string(), 2), false));
    assert!(before(&("y".to_string(), 2), &("x".to_string(), 2), true));
}

#[test]
fn decimal_forms() {
    assert_eq!(decimal_string(0), "0");
    assert_eq!(decimal_string(7), "7");
    assert_eq!(decimal_string(1234), "1234");
    assert_eq!(decimal_string(-56), "-56");
    assert_eq!(decimal_string(i32::MAX), "2147483647");
    assert_eq!(decimal_string(i32::MIN), "-2147483648");
}

#[test]
fn line_styles() {
    let w = "word".to_string();
    assert_eq!(line_string(LineStyle::Dash, &w, 12), "word - 12\n");
    assert_eq!(line_string(LineStyle::Spaced, &w, 12), "word   -  12\n");
    assert_eq!(line_string(LineStyle::Plain, &w, 12), "word 12\n");
    assert_eq!(line_string(LineStyle::Dotted, &w, 12), "word................12\n");
    let long = "abcdefghijklmnopqrstuvwxyz".to_string();
    assert_eq!(line_string(LineStyle::Dotted, &long, 5), "abcdefghijklmnopqrstuvwxyz5\n");
}

#[test]
fn report_keeps_lines_above_threshold_in_order() {
    let v = pairs(&[("a", 9), ("b", 4), ("c", 5), ("d", 1)]);
    assert_eq!(report_string(&v, 4, LineStyle::Dash), "a - 9\nc - 5\n");
    assert_eq!(report_string(&v, 0, LineStyle::Plain), "a 9\nb 4\nc 5\nd 1\n");
    assert_eq!(report_string(&v, 9, LineStyle::Dash), "");
}

#[test]
fn runs_drop_separators() {
    assert_eq!(split_runs("  a bb\tccc\n ", Separator::Whitespace), strings(&["a", "bb", "ccc"]));
    assert_eq!(split_runs("", Separator::Whitespace), Vec::<String>::new());
    assert_eq!(split_runs("ab1cd!!ef", Separator::NonAlphabetic), strings(&["ab", "cd", "ef"]));
    assert_eq!(split_runs("ab1cd!!ef", Separator::NonAlphanumeric), strings(&["ab1cd", "ef"]));
}

#[test]
fn closed_runs_drop_the_open_run() {
    assert_eq!(split_closed_runs("one two three", Separator::NonAlphabetic), strings(&["one", "two"]));
    assert_eq!(split_closed_runs("one two three.", Separator::NonAlphabetic), strings(&["one", "two", "three"]));
}

#[test]
fn pieces_keep_empty_ones() {
    assert_eq!(split_pieces("a,,b,", Separator::Char(',')), strings(&["a", "", "b", ""]));
    assert_eq!(split_pieces("", Separator::Char(',')), strings(&[""]));
    assert_eq!(split_pieces("x y", Separator::Char(' ')), strings(&["x", "y"]));
}

#[test]
fn characters_of_a_string() {
    assert_eq!(chars_of("héllo"), vec!['h', 'é', 'l', 'l', 'o']);
}

#[test]
fn non_word_runs_become_one_space() {
    assert_eq!(replace_non_word("Hello,  world__again!"), "Hello world again ");
    assert_eq!(replace_non_word("plain"), "plain");
    assert_eq!(replace_first_non_word("a, b, c"), "a b, c");
}

#[test]
fn normalized_text_and_words() {
    assert_eq!(normalize_text("The CAT's hat."), "the cat s hat ");
    assert_eq!(words_of_text("The CAT's hat."), strings(&["the", "cat", "s", "hat"]));
    assert_eq!(lowercase_each(&strings(&["ÄB", "cD"])), strings(&["äb", "cd"]));
}

#[test]
fn stop_words_and_filters() {
    let stop = StopWords::from_text("the,a,of");
    assert!(stop.contains(&"the".to_string()));
    assert!(!stop.contains(&"cat".to_string()));
    let buffered = StopWords::from_buffered_text("x,y,");
    assert!(buffered.contains(&"y".to_string()));
    assert!(!buffered.contains(&"".to_string()));
    let plain = StopWords::from_text("x,y,");
    assert!(plain.contains(&"".to_string()));
    let ws = strings(&["the", "cat", "a", "é", "of", "dog", "x"]);
    assert_eq!(
        select_words(&ws, &stop, WordFilter { drop_stop_words: true, min_bytes: 2 }),
        strings(&["cat", "é", "dog"])
    );
    assert_eq!(
        select_words(&ws, &stop, WordFilter { drop_stop_words: false, min_bytes: 3 }),
        strings(&["the", "cat", "dog"])
    );
    assert!(has_min_bytes(&"é".to_string(), 2));
    assert!(!has_min_bytes(&"é".to_string(), 3));
    assert!(has_min_bytes(&"".to_string(), 0));
}

#[test]
fn counting_does_not_depend_on_word_order() {
    let a = FreqTable::from_words(&strings(&["p", "q", "p", "r", "q", "p"]));
    let b = FreqTable::from_words(&strings(&["r", "p", "q", "q", "p", "p"]));
    for w in ["p", "q", "r", "s"] {
        assert_eq!(a.count(&w.to_string()), b.count(&w.to_string()));
    }
    assert_eq!(sort_pairs(&a.entries(), true), sort_pairs(&b.entries(), true));
    assert_eq!(sort_pairs(&a.entries(), true), pairs(&[("p", 3), ("q", 2), ("r", 1)]));
}

#[test]
fn short_lists_are_countable() {
    assert!(eips::freq::countable_words(&strings(&["a", "b", "a"])));
    assert!(eips::freq::countable_words(&Vec::new()));
}

#[test]
fn white_space_agrees_with_std() {
    let mut c: u32 = 0;
    while c <= 0x10FFFF {
        if let Some(ch) = char::from_u32(c) {
            let s = format!("a{}b", ch);
            let parts = split_runs(&s, Separator::Whitespace);
            assert_eq!(parts.len() == 2, ch.is_whitespace(), "{:#x}", c);
        }
        c += if c < 0x3100 { 1 } else { 97 };
    }
}
