use eips::dataspaces::{count_word, dataspace_report, dataspaces_test, pairs_long};
use eips::double_map_reduce::chunk_frequencies;
use eips::freq::{room_for_words, FreqTable};
use eips::lazy_rivers_mp::{append_pair, count_step, filter_step, lazy_rivers_mp_test, sort_words, stream_words, word_step};
use eips::map_reduce::{frequent_report, map_reduce_test, map_words, merge_freq, reduce_freqs, single_word};
use eips::words::{words_of_text, StopWords, WordFilter};

/// apple 6, banana 5, cherry 4, the 7 (a stop word), x 10 (one byte); the text ends with
/// `apple` and no separator after it.
fn sample_text() -> String {
    "Apple apple, APPLE. the apple! x x x; the banana banana banana cherry \
     the apple x x the cherry x cherry banana x the banana x x the cherry the x apple"
        .to_string()
}

fn sample_stop() -> String {
    "the,and,of".to_string()
}

fn strings(ws: &[&str]) -> Vec<String> {
    ws.iter().map(|w| w.to_string()).collect()
}

#[test]
fn map_reduce_drops_words_under_three_bytes() {
    assert_eq!(map_reduce_test(&sample_text(), &sample_stop()), "apple - 6\nbanana - 5\n");
    assert_eq!(map_reduce_test("", ""), "");
}

#[test]
fn map_step_makes_one_word_tables() {
    let stop = StopWords::from_text("of");
    let ws = strings(&["cat", "of", "ox", "dog", "cat"]);
    let tables = map_words(&ws, &stop, WordFilter { drop_stop_words: true, min_bytes: 3 });
    assert_eq!(tables.len(), 3);
    assert_eq!(tables[0].entries(), vec![("cat".to_string(), 1)]);
    assert_eq!(tables[1].entries(), vec![("dog".to_string(), 1)]);
    let reduced = reduce_freqs(&tables).unwrap();
    assert_eq!(reduced.entries(), vec![("cat".to_string(), 2), ("dog".to_string(), 1)]);
    assert!(reduce_freqs(&Vec::new()).is_none());
}

#[test]
fn merging_in_any_grouping_gives_the_same_counts() {
    let ws = strings(&["a", "b", "a", "c", "a", "b"]);
    let singles: Vec<FreqTable> = ws.iter().map(|w| single_word(w)).collect();
    let left = merge_freq(&merge_freq(&singles[0], &singles[1]), &merge_freq(&singles[2], &singles[3]));
    let right = merge_freq(&singles[4], &singles[5]);
    let tree = merge_freq(&left, &right);
    let sequential = reduce_freqs(&singles).unwrap();
    let swapped = merge_freq(&right, &left);
    for w in ["a", "b", "c", "d"] {
        let w = w.to_string();
        assert_eq!(tree.count(&w), sequential.count(&w));
        assert_eq!(swapped.count(&w), sequential.count(&w));
    }
    assert_eq!(sequential.count(&"a".to_string()), 3);
}

#[test]
fn frequent_report_filters_then_sorts() {
    let mut t = FreqTable::new();
    t.add(&"low".to_string(), 4);
    t.add(&"mid".to_string(), 5);
    t.add(&"top".to_string(), 9);
    assert_eq!(frequent_report(&t), "top - 9\nmid - 5\n");
}

#[test]
fn chunks_are_counted_apart() {
    let stop = StopWords::from_text("the");
    let c = chunk_frequencies("The cat and the cat.\nA dog\n", &stop).unwrap();
    assert_eq!(c.entries(), vec![("cat".to_string(), 2), ("and".to_string(), 1), ("dog".to_string(), 1)]);
    assert!(chunk_frequencies("a b, the\n", &stop).is_none());
    assert!(chunk_frequencies("", &stop).is_none());
}

#[test]
fn dataspaces_keeps_long_frequent_words() {
    assert_eq!(dataspaces_test(&sample_text(), &sample_stop()), "apple 6\n");
    let v = vec![("ab".to_string(), 7), ("abc".to_string(), 2), ("é".to_string(), 9), ("éa".to_string(), 1)];
    assert_eq!(pairs_long(&v, 3), vec![("abc".to_string(), 2), ("éa".to_string(), 1)]);
}

#[test]
fn dataspace_worker_step() {
    let stop = StopWords::from_text("the");
    let mut t = FreqTable::new();
    for w in ["the", "ox", "a", "ox", "cow"] {
        count_word(&mut t, &stop, &w.to_string());
    }
    assert_eq!(t.entries(), vec![("ox".to_string(), 2), ("cow".to_string(), 1)]);
    for _ in 0..5 {
        count_word(&mut t, &stop, &"cow".to_string());
    }
    count_word(&mut t, &stop, &"ox".to_string());
    assert_eq!(dataspace_report(&t), "cow 6\n");
}

#[test]
fn word_step_sends_words_when_they_end() {
    let mut w = String::new();
    assert!(word_step(&mut w, 'H').is_none());
    assert!(word_step(&mut w, 'i').is_none());
    assert_eq!(w, "Hi");
    assert_eq!(word_step(&mut w, '!'), Some("hi".to_string()));
    assert_eq!(w, "");
    assert!(word_step(&mut w, ' ').is_none());
}

#[test]
fn stream_words_drop_the_unfinished_word() {
    assert_eq!(stream_words("One, two THREE"), strings(&["one", "two"]));
    assert_eq!(stream_words("One, two THREE."), strings(&["one", "two", "three"]));
    assert_eq!(stream_words(""), Vec::<String>::new());
}

#[test]
fn channel_pipeline_orders_ties_by_word() {
    assert_eq!(lazy_rivers_mp_test(&sample_text(), &sample_stop()), "x - 10\nbanana - 5\napple - 5\n");
    let stop = StopWords::from_text("the");
    assert!(!filter_step(&stop, &"the".to_string()));
    assert!(filter_step(&stop, &"a".to_string()));
    let pairs = vec![("a".to_string(), 5), ("c".to_string(), 2), ("b".to_string(), 5), ("d".to_string(), 7)];
    assert_eq!(sort_words(&pairs, 4), vec![("d".to_string(), 7), ("b".to_string(), 5), ("a".to_string(), 5)]);
    let mut acc = String::new();
    append_pair(&mut acc, &("b".to_string(), 5));
    append_pair(&mut acc, &("a".to_string(), 5));
    assert_eq!(acc, "b - 5\na - 5\n");
}

#[test]
fn words_of_sample() {
    assert_eq!(words_of_text(&sample_text()).len(), 32);
}

#[test]
fn dropping_rare_words_first_prints_the_same_report() {
    let t = FreqTable::from_words(&strings(&["k", "j", "k", "k", "j", "k", "k", "j", "j", "j", "i"]));
    let sorted_first = eips::kick_forward::print_kf(&eips::kick_forward::sort_kf(&t));
    assert_eq!(frequent_report(&t), sorted_first);
    assert_eq!(sorted_first, "k - 5\nj - 5\n");
}

#[test]
fn golf_report_does_not_depend_on_word_order() {
    let one = "cat dog cat dog cat dog cat dog cat dog emu emu emu emu emu".to_string();
    let two = "emu dog emu cat emu dog cat emu dog cat emu dog cat dog cat".to_string();
    let stop = "".to_string();
    assert_eq!(eips::golf::golf_test(&one, &stop), eips::golf::golf_test(&two, &stop));
    assert_eq!(eips::golf::golf_test(&one, &stop), "emu - 5\ndog - 5\ncat - 5\n");
}

#[test]
fn worker_order_does_not_change_the_counts() {
    let stop = StopWords::from_text("the");
    let words = words_of_text(&sample_text());
    let mut forward = FreqTable::new();
    for w in &words {
        count_word(&mut forward, &stop, w);
    }
    let mut backward = FreqTable::new();
    for w in words.iter().rev() {
        count_word(&mut backward, &stop, w);
    }
    for w in &words {
        assert_eq!(forward.count(w), backward.count(w));
    }
    assert_eq!(dataspace_report(&forward), dataspace_report(&backward));
}

#[test]
fn checked_concurrent_styles() {
    assert_eq!(eips::map_reduce::map_reduce_checked(&sample_text(), &sample_stop()), Some("apple - 6\nbanana - 5\n".to_string()));
    assert_eq!(eips::dataspaces::dataspaces_checked(&sample_text(), &sample_stop()), Some("apple 6\n".to_string()));
    assert_eq!(
        eips::lazy_rivers_mp::lazy_rivers_mp_checked(&sample_text(), &sample_stop()),
        Some("x - 10\nbanana - 5\napple - 5\n".to_string())
    );
    let stop = StopWords::from_text("the");
    assert!(matches!(eips::double_map_reduce::chunk_frequencies_checked("a b\n", &stop), Some(None)));
}

#[test]
fn merged_chunk_tables_count_all_the_chunks() {
    let stop = StopWords::from_text("the");
    let chunks = ["The cat and the cat.\nA dog\n", "dog cat, emu\n", "Cat the end\n"];
    let tables: Vec<FreqTable> = chunks.iter().map(|c| chunk_frequencies(c, &stop).unwrap()).collect();
    let merged = reduce_freqs(&tables).unwrap();
    let backward = merge_freq(&merge_freq(&tables[2], &tables[1]), &tables[0]);
    let whole = chunk_frequencies(&chunks.concat(), &stop).unwrap();
    for w in ["cat", "dog", "and", "emu", "end", "the"] {
        let w = w.to_string();
        assert_eq!(merged.count(&w), whole.count(&w));
        assert_eq!(backward.count(&w), whole.count(&w));
    }
    assert_eq!(merged.count(&"cat".to_string()), 4);
    assert_eq!(merged.count(&"dog".to_string()), 2);
}

#[test]
fn counting_stage_stops_at_the_largest_count() {
    let mut t = FreqTable::new();
    assert!(count_step(&mut t, &"ox".to_string()));
    assert!(count_step(&mut t, &"ox".to_string()));
    assert_eq!(t.entries(), vec![("ox".to_string(), 2)]);
    t.add(&"cow".to_string(), i32::MAX);
    assert!(!count_step(&mut t, &"cow".to_string()));
    assert_eq!(t.count(&"cow".to_string()), i32::MAX);
    assert_eq!(t.count(&"ox".to_string()), 2);
}

#[test]
fn room_for_counting_looks_at_the_counted_words_only() {
    let mut t = FreqTable::new();
    t.add(&"cow".to_string(), i32::MAX - 2);
    assert!(room_for_words(&t, &strings(&["cow", "ox"])));
    assert!(!room_for_words(&t, &strings(&["cow", "ox", "cow"])));
    assert!(room_for_words(&t, &strings(&["ox", "ox", "ox"])));
    assert!(room_for_words(&t, &Vec::new()));
}
