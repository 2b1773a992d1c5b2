use eips::things::TFExercise;
use eips::abstract_things;
use eips::actors::{self, MessageAct, MessageData};
use eips::aspects;
use eips::closed_maps;
use eips::constructivist;
use eips::golf::golf_test;
use eips::kick_forward::{do_nothing_kf, kick_forward_test, print_kf, sort_kf, frequencies_kf, scan_string_kf};
use eips::lazy_rivers::{AllWords, Frequencies};
use eips::letterbox::{self, LetterData, LetterReply, MessageLB};
use eips::mirror;
use eips::pipe;
use eips::quarantine;
use eips::the_one::{the_one_test, TFTheOne, TheOneValue};
use eips::things;

/// apple 6, banana 5, cherry 4, the 7 (a stop word), x 10 (one byte); the text ends with
/// `apple` and no separator after it.
fn sample_text() -> String {
    "Apple apple, APPLE. the apple! x x x; the banana banana banana cherry \
     the apple x x the cherry x cherry banana x the banana x x the cherry the x apple"
        .to_string()
}

fn sample_stop() -> String {
    "the,and,of".to_string()
}

const USUAL: &str = "apple - 6\nbanana - 5\n";

#[test]
fn things_controller_reports_frequent_words() {
    let mut c = things::WordFrequencyController::new(&sample_text(), &sample_stop());
    assert_eq!(c.run(), USUAL);
}

#[test]
fn things_managers() {
    let d = things::DataStorageManager::new(&"A b, C".to_string());
    assert_eq!(d.words(), vec!["a".to_string(), "b".to_string(), "c".to_string()]);
    let s = things::StopWordManager::new(&"a,b".to_string());
    assert!(s.is_stop_word(&"a".to_string()));
    assert!(!s.is_stop_word(&"c".to_string()));
    let mut w = things::WordFrequencyManager::new();
    w.increment_count(&"bb".to_string());
    w.increment_count(&"c".to_string());
    w.increment_count(&"aa".to_string());
    w.increment_count(&"aa".to_string());
    assert_eq!(w.sorted(), vec![("aa".to_string(), 2), ("bb".to_string(), 1)]);
}

#[test]
fn abstract_things_controller_reports_frequent_words() {
    let d = abstract_things::DataStorageManager::new(&sample_text());
    let s = abstract_things::StopWordManager::new(&sample_stop());
    let w = abstract_things::WordFrequencyManager::new();
    let mut c = abstract_things::WordFrequencyController::new(d, s, w);
    assert_eq!(c.run(), USUAL);
}

#[test]
fn letterbox_controller_answers_run() {
    let mut c = letterbox::WordFrequencyController::new();
    let init = MessageLB::new(&"init".to_string(), LetterData::Texts(vec![sample_text(), sample_stop()]));
    c.dispatch(&init);
    let run = MessageLB::new(&"run".to_string(), LetterData::Flag(true));
    match c.dispatch(&run) {
        LetterReply::Text(s) => assert_eq!(s, "x - 10\napple - 6\nbanana - 5\n"),
        _ => panic!("run answers with a text"),
    }
}

#[test]
fn letterbox_storage_answers_init_and_words() {
    let mut d = letterbox::DataStorageManager::new();
    let init = MessageLB::new(&"init".to_string(), LetterData::Text("Hi, there!".to_string()));
    match d.dispatch(&init) {
        LetterReply::Text(s) => assert_eq!(s, "hi there "),
        _ => panic!("init answers with the text"),
    }
    let words = MessageLB::new(&"words".to_string(), LetterData::Flag(true));
    match d.dispatch(&words) {
        LetterReply::Words(ws) => assert_eq!(ws, vec!["hi".to_string(), "there".to_string()]),
        _ => panic!("words answers with the words"),
    }
}

fn route(
    msg: MessageAct,
    storage: &mut actors::DataStorageManager,
    stop: &mut actors::StopWordsManager,
    freqs: &mut actors::FrequenciesManager,
    sorter: &mut actors::SortFrequencies,
    acc: &mut actors::StringAccumulator,
    out: &mut Vec<String>,
) {
    let sent = match msg.message.as_str() {
        "init" | "send_words" => storage.dispatch(&msg).1,
        "filter" => stop.dispatch(&msg).1,
        "word" => freqs.dispatch(&msg).1,
        "freq" => sorter.dispatch(&msg).1,
        "sorted" => acc.dispatch(&msg).1,
        "text" => {
            if let MessageData::TextData(t) = msg.msg_data {
                out.push(t);
            }
            Vec::new()
        },
        _ => Vec::new(),
    };
    for m in sent {
        route(m, storage, stop, freqs, sorter, acc, out);
    }
}

#[test]
fn actors_pass_messages_to_the_report() {
    let mut storage = actors::DataStorageManager::new();
    let mut stop = actors::StopWordsManager::new();
    stop.init(&sample_stop());
    let mut freqs = actors::FrequenciesManager::new();
    let mut sorter = actors::SortFrequencies::new(&None);
    let mut acc = actors::StringAccumulator::new();
    let mut out = Vec::new();
    let init = MessageAct { message: "init".to_string(), msg_data: MessageData::TextData(sample_text()) };
    route(init, &mut storage, &mut stop, &mut freqs, &mut sorter, &mut acc, &mut out);
    let go = MessageAct { message: "send_words".to_string(), msg_data: MessageData::Empty };
    route(go, &mut storage, &mut stop, &mut freqs, &mut sorter, &mut acc, &mut out);
    assert_eq!(out, vec![USUAL.to_string()]);
    let kill = MessageAct { message: "kill".to_string(), msg_data: MessageData::Kill };
    let (alive, sent) = storage.dispatch(&kill);
    assert!(!alive);
    assert!(sent.is_empty());
}

#[test]
fn actors_sorter_keeps_each_pair_once() {
    let mut sorter = actors::SortFrequencies::new(&Some(1));
    sorter.insert_pair(&("b".to_string(), 2));
    sorter.insert_pair(&("a".to_string(), 2));
    sorter.insert_pair(&("b".to_string(), 2));
    sorter.insert_pair(&("c".to_string(), 1));
    let sent = sorter.send_sorted_freqs();
    assert_eq!(sent.len(), 3);
    match &sent[0].msg_data {
        MessageData::FreqData(p) => assert_eq!(p, &("b".to_string(), 2)),
        _ => panic!("a pair comes first"),
    }
    match &sent[1].msg_data {
        MessageData::FreqData(p) => assert_eq!(p, &("a".to_string(), 2)),
        _ => panic!("a pair comes second"),
    }
    assert!(matches!(sent[2].msg_data, MessageData::Eof));
}

#[test]
fn aspects_style() {
    let ws = aspects::read_and_filter_words((&sample_text(), &sample_stop()));
    assert_eq!(aspects::frequencies_to_string(&ws), USUAL);
}

#[test]
fn constructivist_style_and_errors() {
    let f = "data.txt".to_string();
    let sw = "stop.txt".to_string();
    let ws = constructivist::read_and_filter_words(&sw, &Some(sample_stop()), &f, &Some(sample_text())).unwrap();
    assert_eq!(constructivist::frequencies_to_string(&ws), USUAL);
    let e = constructivist::read_and_filter_words(&sw, &None, &f, &Some(sample_text()));
    assert_eq!(e, Err("Error in reading SW file: stop.txt".to_string()));
    let e = constructivist::read_and_filter_words(&sw, &Some(sample_stop()), &f, &None);
    assert_eq!(e, Err("Error in reading data file: data.txt".to_string()));
}

#[test]
fn closed_maps_style() {
    assert_eq!(closed_maps::read_text(&"AbC".to_string()), "abc");
    assert_eq!(
        closed_maps::extract_words(&"It's A dog.".to_string()),
        vec!["it".to_string(), "s".to_string(), "a".to_string(), "dog".to_string()]
    );
}

#[test]
fn golf_counts_short_words_and_orders_ties_by_word() {
    assert_eq!(golf_test(&sample_text(), &sample_stop()), "x - 10\napple - 6\nbanana - 5\n");
    let tie = "bb aa bb aa bb aa bb aa bb aa".to_string();
    assert_eq!(golf_test(&tie, &"".to_string()), "bb - 5\naa - 5\n");
}

#[test]
fn kick_forward_style() {
    assert_eq!(kick_forward_test(&sample_text(), &sample_stop()), USUAL);
    let scanned = scan_string_kf(&"ab c de".to_string());
    assert_eq!(scanned, vec!["ab".to_string(), "de".to_string()]);
    let t = frequencies_kf(&scanned);
    assert_eq!(print_kf(&sort_kf(&t)), "");
    do_nothing_kf();
}

#[test]
fn lazy_rivers_style() {
    let mut f = Frequencies::new();
    let all = f.frequencies(&sample_text(), &sample_stop());
    assert_eq!(all[0], ("apple".to_string(), 5));
    assert_eq!(all[1], ("banana".to_string(), 5));
    assert_eq!(all[2], ("cherry".to_string(), 4));
    assert_eq!(all.len(), 3);
    let mut aw = AllWords::new();
    assert_eq!(aw.all_words(&"One two Three".to_string()), vec!["one".to_string(), "two".to_string()]);
}

#[test]
fn mirror_style() {
    let stop = eips::words::StopWords::from_text(&sample_stop());
    let mut q = mirror::read_file(&sample_text());
    let mut t = eips::freq::FreqTable::new();
    mirror::count(&stop, &mut q, &mut t);
    assert!(q.is_empty());
    assert_eq!(mirror::print_freqs(&t), "apple   -  6\nbanana   -  5\n");
}

#[test]
fn pipe_style() {
    let norm = pipe::filter_chars_and_normalize(&sample_text());
    let words = pipe::scan_str(&norm);
    let kept = pipe::remove_stop_words(&words, &sample_stop());
    let freqs = pipe::frequencies(&kept);
    let sorted = pipe::sort_wf(&freqs);
    assert_eq!(pipe::print_all(&sorted), "apple...............6\nbanana..............5\n");
}

#[test]
fn quarantine_steps() {
    let ws = quarantine::extract_words(&"a, b.".to_string());
    assert_eq!(ws, vec!["a".to_string(), "b".to_string(), "".to_string()]);
    let kept = quarantine::remove_stop_words(&quarantine::extract_words(&sample_text()), &sample_stop());
    let t = quarantine::frequencies(&kept);
    let v = quarantine::sort(&t);
    assert_eq!(quarantine::print_top_to_string(&v, 4), USUAL);
    assert_eq!(quarantine::print_top_to_string(&v, 5), "apple - 6\n");
}

#[test]
fn the_one_style() {
    assert_eq!(the_one_test(&sample_text(), &sample_stop()), USUAL);
    let one = TFTheOne::new(&"x".to_string());
    assert_eq!(one.print_me(), "Error - print_me");
    let words = eips::the_one::scan_str(&TheOneValue::Text("ab c".to_string()));
    assert!(matches!(words, TheOneValue::Words(_)));
    let bad = eips::the_one::scan_str(&words);
    let again = eips::the_one::frequencies_and_sort(&bad);
    assert!(!matches!(again, TheOneValue::Freqs(_)));
}

#[test]
fn things_runs_add_up() {
    let mut c = things::WordFrequencyController::new(&sample_text(), &sample_stop());
    assert_eq!(c.run(), USUAL);
    assert_eq!(c.run(), "apple - 12\nbanana - 10\ncherry - 8\n");
}

#[test]
fn managers_say_what_they_are() {
    let d = things::DataStorageManager::new(&"x".to_string());
    assert_eq!(d.info(), "I'm DataStorageManager");
    let w = things::WordFrequencyManager::new();
    assert_eq!(w.info(), "I'm WordFrequencyManager");
}

#[test]
fn checked_runs_agree_with_the_plain_ones() {
    assert_eq!(eips::golf::golf_checked(&sample_text(), &sample_stop()), Some(golf_test(&sample_text(), &sample_stop())));
    assert_eq!(eips::kick_forward::kick_forward_checked(&sample_text(), &sample_stop()), Some(USUAL.to_string()));
    assert_eq!(eips::the_one::the_one_checked(&sample_text(), &sample_stop()), Some(USUAL.to_string()));
    let mut f = Frequencies::new();
    assert_eq!(f.frequencies_checked(&sample_text(), &sample_stop()).unwrap().len(), 3);
    let mut m = eips::trinity::WordFrequenciesModel::new();
    assert!(m.update_checked(&sample_text(), &sample_stop()));
}

#[test]
fn checked_controllers_run_when_no_count_can_overflow() {
    let mut c = things::WordFrequencyController::new(&sample_text(), &sample_stop());
    assert_eq!(c.run_checked(), Some(USUAL.to_string()));
    assert_eq!(c.run_checked(), Some("apple - 12\nbanana - 10\ncherry - 8\n".to_string()));
    assert_eq!(abstract_things::abstract_things_checked(&sample_text(), &sample_stop()), Some(USUAL.to_string()));
    let mut l = letterbox::WordFrequencyController::new();
    let init = MessageLB::new(&"init".to_string(), LetterData::Texts(vec![sample_text(), sample_stop()]));
    l.dispatch(&init);
    assert_eq!(l.run_checked(), Some("x - 10\napple - 6\nbanana - 5\n".to_string()));
    assert_eq!(l.run_checked(), Some("x - 20\napple - 12\nbanana - 10\ncherry - 8\n".to_string()));
}

#[test]
fn one_byte_words_need_no_room() {
    let mut w = things::WordFrequencyManager::new();
    w.increment_count(&"x".to_string());
    assert_eq!(w.sorted(), Vec::new());
}

#[test]
fn abstract_things_runs_add_up() {
    let d = abstract_things::DataStorageManager::new(&sample_text());
    let s = abstract_things::StopWordManager::new(&sample_stop());
    let w = abstract_things::WordFrequencyManager::new();
    let mut c = abstract_things::WordFrequencyController::new(d, s, w);
    assert_eq!(c.run(), USUAL);
    assert_eq!(c.run(), "apple - 12\nbanana - 10\ncherry - 8\n");
}
