use blazeexam::Choice;
use blazeexam::Exam;
use blazeexam::ExamCreator;

#[test]
fn empty_exam_payload() {
    let exam = Exam::new();
    assert_eq!(exam.to_json(), r#"{"name":"","questions":[]}"#);
}

#[test]
fn midterm_scenario_payload() {
    let mut exam = Exam::new();
    exam.set_name(String::from("Midterm"));
    exam.add_question();
    exam.questions[0].set_prompt(String::from("2+2?"));
    exam.questions[0].add_choice();
    exam.questions[0].add_choice();
    exam.questions[0].add_choice();
    assert_eq!(
        exam.to_json(),
        r#"{"name":"Midterm","questions":[{"prompt":"2+2?","choices":["Choice 1","Choice 2","Choice 3"],"answer":"A"}]}"#
    );
}

#[test]
fn saving_twice_is_byte_identical() {
    let mut exam = Exam::new();
    exam.set_name(String::from("Quiz"));
    exam.add_question();
    exam.questions[0].set_prompt(String::from("why?"));
    exam.questions[0].add_choice();
    exam.questions[0].set_answer(Choice::B);
    let first = exam.to_json();
    let second = exam.to_json();
    assert_eq!(first, second);
    assert_eq!(first.into_bytes(), second.into_bytes());
}

#[test]
fn strings_are_escaped_like_serde_json() {
    let mut exam = Exam::new();
    exam.set_name(String::from("a\"b\\c\nd\te\u{8}f\u{c}g\rh\u{1}i\u{1f}j"));
    assert_eq!(
        exam.to_json(),
        "{\"name\":\"a\\\"b\\\\c\\nd\\te\\bf\\fg\\rh\\u0001i\\u001fj\",\"questions\":[]}"
    );
}

#[test]
fn non_ascii_text_passes_through_unescaped() {
    let mut exam = Exam::new();
    exam.set_name(String::from("était 😀"));
    assert_eq!(exam.to_json(), "{\"name\":\"était 😀\",\"questions\":[]}");
}

#[test]
fn answer_tokens_are_slot_letters() {
    let mut exam = Exam::new();
    exam.add_question();
    exam.questions[0].set_answer(Choice::H);
    exam.add_question();
    exam.questions[1].set_answer(Choice::D);
    assert_eq!(
        exam.to_json(),
        r#"{"name":"","questions":[{"prompt":"","choices":[],"answer":"H"},{"prompt":"","choices":[],"answer":"D"}]}"#
    );
}

#[test]
fn round_trip_through_a_json_parser() {
    let mut exam = Exam::new();
    exam.set_name(String::from("Final \"exam\" \\ one\n"));
    exam.add_question();
    exam.questions[0].set_prompt(String::from("What is\ta\u{3}control?"));
    exam.questions[0].add_choice();
    exam.questions[0].add_choice();
    exam.questions[0].set_answer(Choice::B);
    exam.add_question();
    exam.questions[1].set_prompt(String::from("héllo 😀?"));

    let payload = exam.to_json();
    let value: serde_json::Value = serde_json::from_str(&payload).unwrap();

    assert_eq!(value["name"], serde_json::Value::String(exam.name.clone()));
    let questions = value["questions"].as_array().unwrap();
    assert_eq!(questions.len(), 2);
    assert_eq!(
        questions[0]["prompt"],
        serde_json::Value::String(String::from("What is\ta\u{3}control?"))
    );
    let choices = questions[0]["choices"].as_array().unwrap();
    assert_eq!(choices.len(), 2);
    assert_eq!(choices[0], serde_json::Value::String(String::from("Choice 1")));
    assert_eq!(choices[1], serde_json::Value::String(String::from("Choice 2")));
    assert_eq!(questions[0]["answer"], serde_json::Value::String(String::from("B")));
    assert_eq!(
        questions[1]["prompt"],
        serde_json::Value::String(String::from("héllo 😀?"))
    );
    assert_eq!(questions[1]["choices"].as_array().unwrap().len(), 0);
    assert_eq!(questions[1]["answer"], serde_json::Value::String(String::from("A")));
}

#[test]
fn failed_save_keeps_exam_and_reports_error() {
    let mut creator = ExamCreator::new();
    creator.exam.set_name(String::from("Midterm"));
    creator.exam.add_question();
    creator.exam.questions[0].set_prompt(String::from("2+2?"));
    let before = creator.exam.to_json();

    creator.record_save_result(Err(String::from("permission denied (os error 13)")));

    assert_eq!(creator.exam.to_json(), before);
    assert_eq!(
        creator.error_message,
        Some(String::from("permission denied (os error 13)"))
    );
}

#[test]
fn successful_save_leaves_stale_error_visible() {
    let mut creator = ExamCreator::new();
    assert_eq!(creator.error_message, None);
    creator.record_save_result(Err(String::from("disk full")));
    creator.record_save_result(Ok(()));
    assert_eq!(creator.error_message, Some(String::from("disk full")));
}
