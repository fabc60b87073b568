use blazeexam::Choice;
use blazeexam::Exam;
use blazeexam::Question;

fn question_with_choices(n: usize) -> Question {
    let mut q = Question::default();
    for _ in 0..n {
        q.add_choice();
    }
    q
}

#[test]
fn default_question_is_empty() {
    let q = Question::default();
    assert_eq!(q.prompt, "");
    assert_eq!(q.choices.len(), 0);
    assert_eq!(q.answer, Choice::A);
}

#[test]
fn add_choice_generates_ordinal_labels() {
    let q = question_with_choices(3);
    assert_eq!(q.choices, vec!["Choice 1", "Choice 2", "Choice 3"]);
}

#[test]
fn add_choice_never_grows_past_eight() {
    let mut q = Question::default();
    for _ in 0..20 {
        q.add_choice();
        assert!(q.choices.len() <= 8);
    }
    assert_eq!(
        q.choices,
        vec![
            "Choice 1", "Choice 2", "Choice 3", "Choice 4", "Choice 5", "Choice 6", "Choice 7",
            "Choice 8"
        ]
    );
}

#[test]
fn ninth_add_choice_is_a_noop() {
    let mut q = question_with_choices(8);
    let before = q.choices.clone();
    q.add_choice();
    assert_eq!(q.choices.len(), 8);
    assert_eq!(q.choices, before);
}

#[test]
fn remove_choice_takes_the_last() {
    let mut q = question_with_choices(3);
    q.remove_choice();
    assert_eq!(q.choices, vec!["Choice 1", "Choice 2"]);
}

#[test]
fn remove_choice_on_empty_is_a_noop() {
    let mut q = Question::default();
    q.remove_choice();
    assert_eq!(q.choices.len(), 0);
}

#[test]
fn three_removes_empty_three_choices() {
    let mut q = question_with_choices(3);
    q.remove_choice();
    q.remove_choice();
    q.remove_choice();
    assert_eq!(q.choices.len(), 0);
    q.remove_choice();
    assert_eq!(q.choices.len(), 0);
}

#[test]
fn remove_choice_leaves_answer_alone() {
    let mut q = question_with_choices(3);
    q.set_answer(Choice::C);
    q.remove_choice();
    assert_eq!(q.answer, Choice::C);
}

#[test]
fn add_question_appends_and_keeps_existing_indices() {
    let mut exam = Exam::new();
    exam.add_question();
    exam.questions[0].set_prompt(String::from("first"));
    exam.add_question();
    exam.questions[1].set_prompt(String::from("second"));
    exam.add_question();
    assert_eq!(exam.questions.len(), 3);
    assert_eq!(exam.questions[0].prompt, "first");
    assert_eq!(exam.questions[1].prompt, "second");
    assert_eq!(exam.questions[2].prompt, "");
}

#[test]
fn new_exam_is_empty() {
    let exam = Exam::new();
    assert_eq!(exam.name, "");
    assert_eq!(exam.questions.len(), 0);
}

#[test]
fn choice_from_index_walks_the_slots() {
    assert_eq!(Choice::from(0), Choice::A);
    assert_eq!(Choice::from(1), Choice::B);
    assert_eq!(Choice::from(2), Choice::C);
    assert_eq!(Choice::from(3), Choice::D);
    assert_eq!(Choice::from(4), Choice::E);
    assert_eq!(Choice::from(5), Choice::F);
    assert_eq!(Choice::from(6), Choice::G);
    assert_eq!(Choice::from(7), Choice::H);
    assert_eq!(Choice::from(8), Choice::A);
    assert_eq!(Choice::from(1000), Choice::A);
}

#[test]
fn choice_default_is_first_slot() {
    assert_eq!(Choice::default(), Choice::A);
}

#[test]
fn set_choice_edits_exactly_one_label() {
    let mut q = question_with_choices(3);
    q.set_choice(1, String::from("forty-two"));
    assert_eq!(q.choices, vec!["Choice 1", "forty-two", "Choice 3"]);
    assert_eq!(q.answer, Choice::A);
}

#[test]
fn set_answer_accepts_any_slot() {
    let mut q = Question::default();
    q.set_answer(Choice::H);
    assert_eq!(q.answer, Choice::H);
    assert_eq!(q.choices.len(), 0);
}
