use eips::menu::{menu_choice, MenuChoice, Style};
use eips::quarantine::{
    apply_step, guard_callable, quarantine_pipeline, DeferredCall, QuarantineEvent, QuarantineStep, QuarantineValue,
    TFQuarantine,
};
use eips::words::StopWords;

/// apple 6, banana 5, cherry 4, the 7 (a stop word), x 10 (one byte).
fn sample_text() -> String {
    "Apple apple, APPLE. the apple! x x x; the banana banana banana cherry \
     the apple x x the cherry x cherry banana x the banana x x the cherry the x apple"
        .to_string()
}

#[test]
fn menu_numbers() {
    assert_eq!(menu_choice(0), MenuChoice::Exit);
    assert_eq!(menu_choice(5), MenuChoice::Run(Style::Pipeline));
    assert_eq!(menu_choice(15), MenuChoice::Run(Style::BulletinBoard));
    assert_eq!(menu_choice(18), MenuChoice::Run(Style::Aspects));
    assert_eq!(menu_choice(271), MenuChoice::Run(Style::LazyRiversMessagePassing));
    assert_eq!(menu_choice(28), MenuChoice::Run(Style::Actors));
    assert_eq!(menu_choice(9999), MenuChoice::Invalid);
    assert_eq!(menu_choice(-3), MenuChoice::Invalid);
    assert_eq!(menu_choice(16), MenuChoice::Invalid);
}

#[test]
fn deferred_calls() {
    let read = apply_step(&QuarantineStep::GetInput, &QuarantineValue::Text("f.txt".to_string()));
    match guard_callable(read) {
        Err(name) => assert_eq!(name, "f.txt"),
        Ok(_) => panic!("reading a file is left to the runner"),
    }
    let extract = apply_step(&QuarantineStep::ExtractWords, &QuarantineValue::Text("A b.".to_string()));
    match guard_callable(extract) {
        Ok(QuarantineValue::Words(ws)) => assert_eq!(ws, vec!["a".to_string(), "b".to_string(), "".to_string()]),
        _ => panic!("extracting words needs no input"),
    }
    match guard_callable(QuarantineValue::Text("t".to_string())) {
        Ok(QuarantineValue::Text(t)) => assert_eq!(t, "t"),
        _ => panic!("a plain value stays"),
    }
    assert!(matches!(
        QuarantineValue::Deferred(DeferredCall::ReadFile("x".to_string())),
        QuarantineValue::Deferred(_)
    ));
}

#[test]
fn machine_asks_for_the_file_then_finishes() {
    let mut q = TFQuarantine::new();
    q.push_fun(QuarantineStep::GetInput);
    q.push_fun(QuarantineStep::ExtractWords);
    q.push_fun(QuarantineStep::RemoveStopWords(StopWords::from_text("the,and")));
    q.push_fun(QuarantineStep::Frequencies);
    q.push_fun(QuarantineStep::Sort);
    q.push_fun(QuarantineStep::PrintTop(4));
    q.start(QuarantineValue::Text("data.txt".to_string()));
    let mut reads = 0;
    loop {
        match q.advance() {
            QuarantineEvent::ReadFile(name) => {
                assert_eq!(name, "data.txt");
                reads += 1;
                q.resume(sample_text());
            },
            QuarantineEvent::Continue => {},
            QuarantineEvent::Done => break,
        }
    }
    assert_eq!(reads, 1);
    let r = q.run(QuarantineValue::Text("data.txt".to_string()), &sample_text());
    match r {
        QuarantineValue::Text(s) => assert_eq!(s, "apple - 6\nbanana - 5\n"),
        _ => panic!("the last step writes a text"),
    }
}

#[test]
fn quarantine_pipeline_reports() {
    let s = quarantine_pipeline(&"data.txt".to_string(), &"the,and".to_string(), &sample_text());
    assert_eq!(s, "apple - 6\nbanana - 5\n");
}

#[test]
fn quarantine_checked_agrees() {
    let s = eips::quarantine::quarantine_pipeline_checked(&"d".to_string(), &"the,and".to_string(), &sample_text());
    assert_eq!(s, Some("apple - 6\nbanana - 5\n".to_string()));
}
