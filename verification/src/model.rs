//! The exam data model: an exam name plus an ordered list of questions, each
//! holding a prompt, up to eight choice labels, and the slot of the correct
//! answer.

use vstd::prelude::*;

verus! {

/// One of the eight positional answer slots a question can mark as correct.
/// Slot identity is positional: `A` is the first choice, `H` the eighth.
#[derive(Clone, Copy, PartialEq, Eq, Structural, Debug)]
pub enum Choice {
    A,
    B,
    C,
    D,
    E,
    F,
    G,
    H,
}

/// The answer slot that list position `i` designates (position 0 is slot `A`).
/// Positions past the eighth fall back to the first slot.
pub open spec fn choice_of_index(i: int) -> Choice {
    if i == 1 {
        Choice::B
    } else if i == 2 {
        Choice::C
    } else if i == 3 {
        Choice::D
    } else if i == 4 {
        Choice::E
    } else if i == 5 {
        Choice::F
    } else if i == 6 {
        Choice::G
    } else if i == 7 {
        Choice::H
    } else {
        Choice::A
    }
}

impl Default for Choice {
    /// A fresh question marks the first slot as correct.
    fn default() -> (r: Choice)
        ensures
            r == Choice::A,
    {
        Choice::A
    }
}

impl core::convert::From<usize> for Choice {
    fn from(num: usize) -> (r: Choice) {
        match num {
            0 => Choice::A,
            1 => Choice::B,
            2 => Choice::C,
            3 => Choice::D,
            4 => Choice::E,
            5 => Choice::F,
            6 => Choice::G,
            7 => Choice::H,
            _ => Choice::A,
        }
    }
}

impl vstd::std_specs::convert::FromSpecImpl<usize> for Choice {
    open spec fn obeys_from_spec() -> bool {
        true
    }

    open spec fn from_spec(num: usize) -> Choice {
        choice_of_index(num as int)
    }
}

/// Mathematical model of a question: the prompt text, the ordered choice
/// labels, and the designated answer slot.
pub struct QuestionView {
    pub prompt: Seq<char>,
    pub choices: Seq<Seq<char>>,
    pub answer: Choice,
}

impl QuestionView {
    /// A question never holds more than eight choices.
    pub open spec fn wf(self) -> bool {
        self.choices.len() <= 8
    }
}

/// The model of a freshly added question: empty prompt, no choices, and the
/// first slot marked as correct.
pub open spec fn empty_question() -> QuestionView {
    QuestionView { prompt: Seq::empty(), choices: Seq::empty(), answer: Choice::A }
}

/// The digit character of the one-based ordinal of list position `i`
/// (position 0 gives '1'); positions are at most 7, so one digit suffices.
pub open spec fn ordinal_digit(i: int) -> char {
    if i == 0 {
        '1'
    } else if i == 1 {
        '2'
    } else if i == 2 {
        '3'
    } else if i == 3 {
        '4'
    } else if i == 4 {
        '5'
    } else if i == 5 {
        '6'
    } else if i == 6 {
        '7'
    } else {
        '8'
    }
}

/// The generated default label for a choice inserted at list position `i`:
/// the word "Choice" followed by the position's one-based ordinal.
pub open spec fn choice_label(i: int) -> Seq<char> {
    seq!['C', 'h', 'o', 'i', 'c', 'e', ' ', ordinal_digit(i)]
}

fn make_label(i: usize) -> (r: String)
    requires
        i < 8,
    ensures
        r@ == choice_label(i as int),
{
    let s: &str = match i {
        0 => "Choice 1",
        1 => "Choice 2",
        2 => "Choice 3",
        3 => "Choice 4",
        4 => "Choice 5",
        5 => "Choice 6",
        6 => "Choice 7",
        _ => "Choice 8",
    };
    proof {
        reveal_strlit("Choice 1");
        reveal_strlit("Choice 2");
        reveal_strlit("Choice 3");
        reveal_strlit("Choice 4");
        reveal_strlit("Choice 5");
        reveal_strlit("Choice 6");
        reveal_strlit("Choice 7");
        reveal_strlit("Choice 8");
        assert(s@ =~= choice_label(i as int));
    }
    String::from_str(s)
}

/// One multiple-choice item: a prompt, an ordered list of choice labels
/// (choice identity is positional), and the slot of the correct answer.
#[derive(Debug, Clone)]
pub struct Question {
    pub prompt: String,
    pub choices: Vec<String>,
    pub answer: Choice,
}

impl View for Question {
    type V = QuestionView;

    open spec fn view(&self) -> QuestionView {
        QuestionView {
            prompt: self.prompt@,
            choices: self.choices.deep_view(),
            answer: self.answer,
        }
    }
}

impl DeepView for Question {
    type V = QuestionView;

    open spec fn deep_view(&self) -> QuestionView {
        self.view()
    }
}

impl Default for Question {
    /// A fresh question: empty prompt, no choices, answer on the first slot.
    fn default() -> (r: Question)
        ensures
            r@ == empty_question(),
    {
        let q = Question { prompt: String::new(), choices: Vec::new(), answer: Choice::A };
        proof {
            assert(q@.choices =~= empty_question().choices);
            assert(q@ == empty_question());
        }
        q
    }
}

impl Question {
    pub open spec fn wf(self) -> bool {
        self@.wf()
    }

    /// Appends the generated default label for the next position, unless the
    /// question already holds eight choices, in which case nothing changes.
    /// The prompt and the answer are never touched.
    pub fn add_choice(&mut self)
        ensures
            final(self)@.prompt == old(self)@.prompt,
            final(self)@.answer == old(self)@.answer,
            old(self)@.choices.len() < 8 ==> final(self)@.choices == old(self)@.choices.push(
                choice_label(old(self)@.choices.len() as int),
            ),
            old(self)@.choices.len() >= 8 ==> *final(self) == *old(self),
            old(self)@.wf() ==> final(self)@.wf(),
    {
        let n = self.choices.len();
        if n < 8 {
            let label = make_label(n);
            self.choices.push(label);
            proof {
                assert(self@.choices =~= old(self)@.choices.push(
                    choice_label(old(self)@.choices.len() as int),
                ));
            }
        }
    }

    /// Removes the last choice; a call on an empty list changes nothing.
    /// The answer slot is deliberately left alone, even when it pointed at
    /// the removed position.
    pub fn remove_choice(&mut self)
        ensures
            final(self)@.prompt == old(self)@.prompt,
            final(self)@.answer == old(self)@.answer,
            old(self)@.choices.len() == 0 ==> *final(self) == *old(self),
            old(self)@.choices.len() > 0 ==> final(self)@.choices == old(self)@.choices.drop_last(),
            old(self)@.wf() ==> final(self)@.wf(),
    {
        if self.choices.len() > 0 {
            self.choices.pop();
            proof {
                assert(self@.choices =~= old(self)@.choices.drop_last());
            }
        }
    }

    /// Overwrites the answer slot with the caller's pick; no consistency
    /// check against the current number of choices is performed.
    pub fn set_answer(&mut self, value: Choice)
        ensures
            final(self)@.prompt == old(self)@.prompt,
            final(self)@.choices == old(self)@.choices,
            final(self)@.answer == value,
    {
        self.answer = value;
    }

    /// Overwrites the label of the choice at position `i`, as the form's
    /// per-choice text field does; every other choice keeps its text.
    pub fn set_choice(&mut self, i: usize, text: String)
        requires
            i < old(self)@.choices.len(),
        ensures
            final(self)@.prompt == old(self)@.prompt,
            final(self)@.answer == old(self)@.answer,
            final(self)@.choices == old(self)@.choices.update(i as int, text@),
    {
        self.choices.set(i, text);
        proof {
            assert(self@.choices =~= old(self)@.choices.update(i as int, text@));
        }
    }

    /// Overwrites the prompt text.
    pub fn set_prompt(&mut self, prompt: String)
        ensures
            final(self)@.prompt == prompt@,
            final(self)@.choices == old(self)@.choices,
            final(self)@.answer == old(self)@.answer,
    {
        self.prompt = prompt;
    }
}

/// Mathematical model of an exam: its name and its questions in authoring
/// order.
pub struct ExamView {
    pub name: Seq<char>,
    pub questions: Seq<QuestionView>,
}

impl ExamView {
    pub open spec fn wf(self) -> bool {
        forall|i: int| 0 <= i < self.questions.len() ==> (#[trigger] self.questions[i]).wf()
    }
}

/// The top-level document being authored: a name plus an ordered list of
/// questions. Question order is display and exam order and is preserved on
/// save.
#[derive(Debug)]
pub struct Exam {
    pub name: String,
    pub questions: Vec<Question>,
}

impl View for Exam {
    type V = ExamView;

    open spec fn view(&self) -> ExamView {
        ExamView { name: self.name@, questions: self.questions.deep_view() }
    }
}

impl Exam {
    pub open spec fn wf(self) -> bool {
        self@.wf()
    }

    /// An exam starts empty: empty name, no questions.
    pub fn new() -> (r: Exam)
        ensures
            r@.name == Seq::<char>::empty(),
            r@.questions == Seq::<QuestionView>::empty(),
            r@.wf(),
    {
        let e = Exam { name: String::new(), questions: Vec::new() };
        proof {
            assert(e@.questions =~= Seq::<QuestionView>::empty());
        }
        e
    }

    /// Appends a fresh question. Every previously existing question keeps
    /// both its index and its contents; there is no bound on the question
    /// count.
    pub fn add_question(&mut self)
        ensures
            final(self)@.name == old(self)@.name,
            final(self)@.questions == old(self)@.questions.push(empty_question()),
            final(self)@.questions.len() == old(self)@.questions.len() + 1,
            forall|i: int|
                0 <= i < old(self)@.questions.len() ==> final(self)@.questions[i] == old(
                    self,
                )@.questions[i],
            old(self)@.wf() ==> final(self)@.wf(),
    {
        self.questions.push(Question::default());
        proof {
            assert(self@.questions =~= old(self)@.questions.push(empty_question()));
        }
    }

    /// Overwrites the exam name.
    pub fn set_name(&mut self, name: String)
        ensures
            final(self)@.name == name@,
            final(self)@.questions == old(self)@.questions,
    {
        self.name = name;
    }
}

impl Default for Exam {
    fn default() -> (r: Exam)
        ensures
            r@.name == Seq::<char>::empty(),
            r@.questions == Seq::<QuestionView>::empty(),
    {
        Exam::new()
    }
}

} // verus!
