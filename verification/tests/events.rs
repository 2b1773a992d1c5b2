use eips::bulletin_board::{Board, EventArg, PRODUCE_WORDS, VALIDATE_WORD};
use eips::bulletin_board::{self, bulletin_board_checked, bulletin_board_test, EventManager, MyEvent, WordsFrequencies};
use eips::hollywood::{self, hollywood_test, FrameworkAction, StopWordsFilter, WordFrequencyCounter, WordFrequencyFramework};

/// apple 6, banana 5, cherry 4, the 7 (a stop word), x 10 (one byte).
fn sample_text() -> String {
    "Apple apple, APPLE. the apple! x x x; the banana banana banana cherry \
     the apple x x the cherry x cherry banana x the banana x x the cherry the x apple"
        .to_string()
}

fn sample_stop() -> String {
    "the,and,of".to_string()
}

#[test]
fn publishing_calls_the_subscribers_in_order() {
    let mut m = EventManager::new();
    assert!(m.emit(MyEvent::OnWord).is_empty());
    m.register_event(MyEvent::OnWord, 3);
    m.register_event(MyEvent::OnLoad, 1);
    m.register_event(MyEvent::OnWord, 7);
    assert_eq!(m.emit(MyEvent::OnWord), vec![3, 7]);
    assert_eq!(m.emit(MyEvent::OnLoad), vec![1]);
    assert!(m.emit(MyEvent::OnPrint).is_empty());
}

#[test]
fn board_components() {
    let mut d = bulletin_board::DataStorage::new();
    d.load_data("Big CAT, big_cat");
    assert_eq!(d.produce_words(), vec!["big".to_string(), "cat".to_string(), "big".to_string(), "cat".to_string()]);
    let mut s = bulletin_board::StopWords::new();
    assert!(!s.is_stop_word(&"big".to_string()));
    s.load_stop_words("big,small");
    assert!(s.is_stop_word(&"big".to_string()));
    let mut f = WordsFrequencies::new();
    for w in ["a", "b", "a", "c", "a", "b"] {
        f.insert_word(&w.to_string());
    }
    let mut out = "old text".to_string();
    f.print_to_string(2, &mut out);
    assert_eq!(out, "a - 3\nb - 2\n");
    f.print_to_string(i32::MIN, &mut out);
    assert_eq!(out, "a - 3\nb - 2\nc - 1\n");
}

#[test]
fn board_counts_words_that_are_no_stop_words() {
    let expected = "x - 10\napple - 6\nbanana - 5\n";
    assert_eq!(bulletin_board_test(&sample_text(), &sample_stop()), expected);
    assert_eq!(bulletin_board_checked(&sample_text(), &sample_stop()), Some(expected.to_string()));
}

#[test]
fn hollywood_components() {
    let mut filter = StopWordsFilter::new();
    assert!(!filter.filter(&"the".to_string()));
    filter.load_data("the,a");
    assert!(filter.filter(&"the".to_string()));
    let mut storage = hollywood::DataStorage::new();
    storage.register_word_event(4);
    storage.register_word_event(2);
    assert_eq!(storage.word_events(), vec![4, 2]);
    storage.load_data("The Sun, a star.");
    assert_eq!(storage.produce_words(&filter), vec!["sun".to_string(), "star".to_string()]);
    let mut counter = WordFrequencyCounter::new();
    for _ in 0..5 {
        counter.word(&"sun".to_string());
    }
    counter.word(&"star".to_string());
    assert_eq!(counter.to_string(), "sun - 5\n");
}

#[test]
fn framework_calls_phases_in_order() {
    let mut f = WordFrequencyFramework::new();
    f.register_produce_words_event(10);
    f.register_load_data_ev(1, &"stop.txt".to_string());
    f.register_to_string_event(20);
    f.register_load_data_ev(2, &"data.txt".to_string());
    let actions = f.run();
    assert_eq!(actions.len(), 4);
    match &actions[0] {
        FrameworkAction::LoadData { handler, file_name } => {
            assert_eq!(*handler, 1);
            assert_eq!(file_name, "stop.txt");
        },
        _ => panic!("loads come first"),
    }
    match &actions[1] {
        FrameworkAction::LoadData { handler, file_name } => {
            assert_eq!(*handler, 2);
            assert_eq!(file_name, "data.txt");
        },
        _ => panic!("loads come first"),
    }
    assert!(matches!(actions[2], FrameworkAction::ProduceWords { handler: 10 }));
    assert!(matches!(actions[3], FrameworkAction::ToString { handler: 20 }));
}

#[test]
fn hollywood_counts_words_that_are_no_stop_words() {
    assert_eq!(hollywood_test(&sample_text(), &sample_stop()), "x - 10\napple - 6\nbanana - 5\n");
}

fn publish(board: &mut Board, ev: MyEvent, arg: &EventArg) {
    for h in board.subscribers(ev) {
        for (next_ev, next_arg) in board.handle(h, arg) {
            publish(board, next_ev, &next_arg);
        }
    }
}

#[test]
fn board_handlers_publish_and_count() {
    let mut board = Board::new();
    publish(&mut board, MyEvent::OnLoad, &EventArg::Text(sample_text()));
    publish(&mut board, MyEvent::OnLoadStopWords, &EventArg::Text(sample_stop()));
    let produced = board.handle(PRODUCE_WORDS, &EventArg::Nothing);
    assert_eq!(produced.len(), 33);
    assert!(matches!(produced[32], (MyEvent::OnEof, EventArg::Nothing)));
    assert!(board.handle(VALIDATE_WORD, &EventArg::Word("the".to_string())).is_empty());
    let valid = board.handle(VALIDATE_WORD, &EventArg::Word("cat".to_string()));
    assert!(matches!(&valid[..], [(MyEvent::OnValidWord, EventArg::Word(w))] if w == "cat"));
    publish(&mut board, MyEvent::OnStart, &EventArg::Nothing);
    publish(&mut board, MyEvent::OnPrint, &EventArg::Print(5));
    assert_eq!(board.result(), "x - 10\napple - 6\nbanana - 5\n");
}

#[test]
fn hollywood_checked_agrees() {
    assert_eq!(eips::hollywood::hollywood_checked(&sample_text(), &sample_stop()), Some("x - 10\napple - 6\nbanana - 5\n".to_string()));
}
