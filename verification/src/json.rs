//! The persistence encoding: an exam is written as one JSON object with the
//! keys `name` (string) and `questions` (array of objects with the keys
//! `prompt`, `choices` and `answer`), in that fixed order, with no added
//! whitespace. Strings are escaped the way serde_json escapes them: only the
//! quote, the backslash and the control characters below U+0020.

use vstd::prelude::*;
use vstd::string::StrSliceExecFns;
use vstd::utf8::char_u32_cast;

use crate::model::Choice;
use crate::model::Exam;
use crate::model::ExamView;
use crate::model::QuestionView;

verus! {

/// The lowercase hexadecimal digit of a value below 16.
pub open spec fn hex_digit(i: int) -> char {
    if i == 0 {
        '0'
    } else if i == 1 {
        '1'
    } else if i == 2 {
        '2'
    } else if i == 3 {
        '3'
    } else if i == 4 {
        '4'
    } else if i == 5 {
        '5'
    } else if i == 6 {
        '6'
    } else if i == 7 {
        '7'
    } else if i == 8 {
        '8'
    } else if i == 9 {
        '9'
    } else if i == 10 {
        'a'
    } else if i == 11 {
        'b'
    } else if i == 12 {
        'c'
    } else if i == 13 {
        'd'
    } else if i == 14 {
        'e'
    } else {
        'f'
    }
}

/// How one character appears inside a JSON string literal: the quote, the
/// backslash and the named control characters get two-character escapes, any
/// other control character a `\u00` escape, and everything else stands as
/// itself.
pub open spec fn escape_char(c: char) -> Seq<char> {
    if c == '"' {
        seq!['\\', '"']
    } else if c == '\\' {
        seq!['\\', '\\']
    } else if c == '\u{08}' {
        seq!['\\', 'b']
    } else if c == '\t' {
        seq!['\\', 't']
    } else if c == '\n' {
        seq!['\\', 'n']
    } else if c == '\u{0C}' {
        seq!['\\', 'f']
    } else if c == '\r' {
        seq!['\\', 'r']
    } else if (c as u32) < 32 {
        seq![
            '\\',
            'u',
            '0',
            '0',
            hex_digit((c as u32) as int / 16),
            hex_digit((c as u32) as int % 16),
        ]
    } else {
        seq![c]
    }
}

/// A whole text with every character escaped.
pub open spec fn escape_string(s: Seq<char>) -> Seq<char>
    decreases s.len(),
{
    if s.len() == 0 {
        Seq::empty()
    } else {
        escape_char(s[0]) + escape_string(s.skip(1))
    }
}

/// A JSON string literal: the escaped text between double quotes.
pub open spec fn quoted(s: Seq<char>) -> Seq<char> {
    seq!['"'] + escape_string(s) + seq!['"']
}

/// The given texts joined with single commas, as inside a JSON array.
pub open spec fn comma_join(parts: Seq<Seq<char>>) -> Seq<char>
    decreases parts.len(),
{
    if parts.len() == 0 {
        Seq::empty()
    } else if parts.len() == 1 {
        parts[0]
    } else {
        parts[0] + seq![','] + comma_join(parts.skip(1))
    }
}

/// Each text as a JSON string literal.
pub open spec fn quoted_all(strs: Seq<Seq<char>>) -> Seq<Seq<char>> {
    strs.map_values(|s: Seq<char>| quoted(s))
}

/// The token naming an answer slot: the slot's letter.
pub open spec fn choice_token(c: Choice) -> char {
    match c {
        Choice::A => 'A',
        Choice::B => 'B',
        Choice::C => 'C',
        Choice::D => 'D',
        Choice::E => 'E',
        Choice::F => 'F',
        Choice::G => 'G',
        Choice::H => 'H',
    }
}

/// The opening of a question object, up to the prompt's value.
pub open spec fn lit_prompt_key() -> Seq<char> {
    seq!['{', '"', 'p', 'r', 'o', 'm', 'p', 't', '"', ':']
}

/// Between the prompt's value and the first choice.
pub open spec fn lit_choices_key() -> Seq<char> {
    seq![',', '"', 'c', 'h', 'o', 'i', 'c', 'e', 's', '"', ':', '[']
}

/// Between the last choice and the answer token.
pub open spec fn lit_answer_key() -> Seq<char> {
    seq![']', ',', '"', 'a', 'n', 's', 'w', 'e', 'r', '"', ':', '"']
}

/// The end of a question object.
pub open spec fn lit_question_end() -> Seq<char> {
    seq!['"', '}']
}

/// The opening of the exam object, up to the name's value.
pub open spec fn lit_name_key() -> Seq<char> {
    seq!['{', '"', 'n', 'a', 'm', 'e', '"', ':']
}

/// Between the name's value and the first question.
pub open spec fn lit_questions_key() -> Seq<char> {
    seq![',', '"', 'q', 'u', 'e', 's', 't', 'i', 'o', 'n', 's', '"', ':', '[']
}

/// The end of the exam object.
pub open spec fn lit_exam_end() -> Seq<char> {
    seq![']', '}']
}

/// The serialized form of one question.
pub open spec fn json_of_question(q: QuestionView) -> Seq<char> {
    lit_prompt_key() + quoted(q.prompt) + lit_choices_key() + comma_join(quoted_all(q.choices))
        + lit_answer_key() + seq![choice_token(q.answer)] + lit_question_end()
}

/// The serialized form of each question in order.
pub open spec fn question_texts(qs: Seq<QuestionView>) -> Seq<Seq<char>> {
    qs.map_values(|q: QuestionView| json_of_question(q))
}

/// The serialized form of a whole exam: the complete payload one save writes.
pub open spec fn json_of_exam(e: ExamView) -> Seq<char> {
    lit_name_key() + quoted(e.name) + lit_questions_key() + comma_join(question_texts(e.questions))
        + lit_exam_end()
}

/// Escaping a text one character longer appends that character's escape.
pub proof fn lemma_escape_string_snoc(s: Seq<char>, c: char)
    ensures
        escape_string(s.push(c)) == escape_string(s) + escape_char(c),
    decreases s.len(),
{
    if s.len() == 0 {
        assert(s.push(c).skip(1) =~= Seq::<char>::empty());
        assert(s.push(c)[0] == c);
        assert(escape_string(Seq::<char>::empty()) == Seq::<char>::empty());
        assert(escape_string(s.push(c)) == escape_char(c) + escape_string(s.push(c).skip(1)));
        assert(escape_string(s.push(c)) =~= escape_string(s) + escape_char(c));
    } else {
        assert(s.push(c).skip(1) =~= s.skip(1).push(c));
        lemma_escape_string_snoc(s.skip(1), c);
        assert(s.push(c)[0] == s[0]);
        assert(escape_string(s.push(c)) == escape_char(s[0]) + escape_string(s.push(c).skip(1)));
        assert(escape_string(s.push(c)) =~= escape_string(s) + escape_char(c));
    }
}

/// Joining one more part appends it, after a comma when parts came before.
pub proof fn lemma_comma_join_snoc(parts: Seq<Seq<char>>, x: Seq<char>)
    ensures
        parts.len() == 0 ==> comma_join(parts.push(x)) == x,
        parts.len() > 0 ==> comma_join(parts.push(x)) == comma_join(parts) + seq![','] + x,
    decreases parts.len(),
{
    if parts.len() == 0 {
        assert(comma_join(parts.push(x)) =~= x);
    } else if parts.len() == 1 {
        assert(parts.push(x).skip(1) =~= seq![x]);
        assert(parts.push(x)[0] == parts[0]);
        assert(comma_join(seq![x]) == x);
        assert(comma_join(parts.push(x)) == parts[0] + seq![','] + comma_join(
            parts.push(x).skip(1),
        ));
        assert(comma_join(parts.push(x)) =~= comma_join(parts) + seq![','] + x);
    } else {
        assert(parts.push(x).skip(1) =~= parts.skip(1).push(x));
        lemma_comma_join_snoc(parts.skip(1), x);
        assert(parts.push(x)[0] == parts[0]);
        assert(comma_join(parts.push(x)) == parts[0] + seq![','] + comma_join(
            parts.push(x).skip(1),
        ));
        assert(comma_join(parts.push(x).skip(1)) == comma_join(parts.skip(1)) + seq![','] + x);
        assert(comma_join(parts) == parts[0] + seq![','] + comma_join(parts.skip(1)));
        assert(comma_join(parts.push(x)) =~= comma_join(parts) + seq![','] + x);
    }
}

fn hex_char(v: u8) -> (r: char)
    requires
        v < 16,
    ensures
        r == hex_digit(v as int),
{
    match v {
        0 => '0',
        1 => '1',
        2 => '2',
        3 => '3',
        4 => '4',
        5 => '5',
        6 => '6',
        7 => '7',
        8 => '8',
        9 => '9',
        10 => 'a',
        11 => 'b',
        12 => 'c',
        13 => 'd',
        14 => 'e',
        _ => 'f',
    }
}

fn push_escaped_char(out: &mut Vec<char>, c: char)
    ensures
        final(out)@ == old(out)@ + escape_char(c),
{
    let u = c as u32;
    proof {
        char_u32_cast(c, u);
    }
    if u == 0x22 {
        out.push('\\');
        out.push('"');
        proof {
            char_u32_cast('"', 0x22);
            assert(out@ =~= old(out)@ + escape_char(c));
        }
    } else if u == 0x5C {
        out.push('\\');
        out.push('\\');
        proof {
            char_u32_cast('\\', 0x5C);
            assert(out@ =~= old(out)@ + escape_char(c));
        }
    } else if u == 0x08 {
        out.push('\\');
        out.push('b');
        proof {
            char_u32_cast('\u{08}', 0x08);
            assert(out@ =~= old(out)@ + escape_char(c));
        }
    } else if u == 0x09 {
        out.push('\\');
        out.push('t');
        proof {
            char_u32_cast('\t', 0x09);
            assert(out@ =~= old(out)@ + escape_char(c));
        }
    } else if u == 0x0A {
        out.push('\\');
        out.push('n');
        proof {
            char_u32_cast('\n', 0x0A);
            assert(out@ =~= old(out)@ + escape_char(c));
        }
    } else if u == 0x0C {
        out.push('\\');
        out.push('f');
        proof {
            char_u32_cast('\u{0C}', 0x0C);
            assert(out@ =~= old(out)@ + escape_char(c));
        }
    } else if u == 0x0D {
        out.push('\\');
        out.push('r');
        proof {
            char_u32_cast('\r', 0x0D);
            assert(out@ =~= old(out)@ + escape_char(c));
        }
    } else if u < 0x20 {
        out.push('\\');
        out.push('u');
        out.push('0');
        out.push('0');
        out.push(hex_char((u / 16) as u8));
        out.push(hex_char((u % 16) as u8));
        proof {
            assert(out@ =~= old(out)@ + escape_char(c));
        }
    } else {
        out.push(c);
        proof {
            assert(out@ =~= old(out)@ + escape_char(c));
        }
    }
}

fn push_escaped(out: &mut Vec<char>, s: &str)
    ensures
        final(out)@ == old(out)@ + escape_string(s@),
{
    let n = s.unicode_len();
    let mut i: usize = 0;
    while i < n
        invariant
            n as nat == s@.len(),
            i <= n,
            out@ == old(out)@ + escape_string(s@.take(i as int)),
        decreases n - i,
    {
        let c = s.get_char(i);
        push_escaped_char(out, c);
        proof {
            assert(s@.take(i as int).push(s@[i as int]) =~= s@.take(i as int + 1));
            lemma_escape_string_snoc(s@.take(i as int), s@[i as int]);
            assert(out@ =~= old(out)@ + escape_string(s@.take(i as int + 1)));
        }
        i = i + 1;
    }
    proof {
        assert(s@.take(n as int) =~= s@);
    }
}

fn push_quoted(out: &mut Vec<char>, s: &str)
    ensures
        final(out)@ == old(out)@ + quoted(s@),
{
    out.push('"');
    push_escaped(out, s);
    out.push('"');
    proof {
        assert(out@ =~= old(out)@ + quoted(s@));
    }
}

fn push_choices(out: &mut Vec<char>, choices: &Vec<String>)
    ensures
        final(out)@ == old(out)@ + comma_join(quoted_all(choices.deep_view())),
{
    let ghost parts = quoted_all(choices.deep_view());
    let mut i: usize = 0;
    while i < choices.len()
        invariant
            parts == quoted_all(choices.deep_view()),
            parts.len() == choices.len(),
            i <= choices.len(),
            out@ == old(out)@ + comma_join(parts.take(i as int)),
        decreases choices.len() - i,
    {
        if i > 0 {
            out.push(',');
        }
        push_quoted(out, choices[i].as_str());
        proof {
            assert(parts[i as int] == quoted(choices.deep_view()[i as int]));
            assert(choices.deep_view()[i as int] == choices@[i as int]@);
            lemma_comma_join_snoc(parts.take(i as int), parts[i as int]);
            assert(parts.take(i as int).push(parts[i as int]) =~= parts.take(i as int + 1));
            assert(out@ =~= old(out)@ + comma_join(parts.take(i as int + 1)));
        }
        i = i + 1;
    }
    proof {
        assert(parts.take(choices.len() as int) =~= parts);
    }
}

impl Choice {
    /// The letter naming this slot in the saved file.
    pub fn token(&self) -> (r: char)
        ensures
            r == choice_token(*self),
    {
        match self {
            Choice::A => 'A',
            Choice::B => 'B',
            Choice::C => 'C',
            Choice::D => 'D',
            Choice::E => 'E',
            Choice::F => 'F',
            Choice::G => 'G',
            Choice::H => 'H',
        }
    }
}

fn push_prompt_key(out: &mut Vec<char>)
    ensures
        final(out)@ == old(out)@ + lit_prompt_key(),
{
    out.push('{');
    out.push('"');
    out.push('p');
    out.push('r');
    out.push('o');
    out.push('m');
    out.push('p');
    out.push('t');
    out.push('"');
    out.push(':');
    proof {
        assert(out@ =~= old(out)@ + lit_prompt_key());
    }
}

fn push_choices_key(out: &mut Vec<char>)
    ensures
        final(out)@ == old(out)@ + lit_choices_key(),
{
    out.push(',');
    out.push('"');
    out.push('c');
    out.push('h');
    out.push('o');
    out.push('i');
    out.push('c');
    out.push('e');
    out.push('s');
    out.push('"');
    out.push(':');
    out.push('[');
    proof {
        assert(out@ =~= old(out)@ + lit_choices_key());
    }
}

fn push_answer_key(out: &mut Vec<char>)
    ensures
        final(out)@ == old(out)@ + lit_answer_key(),
{
    out.push(']');
    out.push(',');
    out.push('"');
    out.push('a');
    out.push('n');
    out.push('s');
    out.push('w');
    out.push('e');
    out.push('r');
    out.push('"');
    out.push(':');
    out.push('"');
    proof {
        assert(out@ =~= old(out)@ + lit_answer_key());
    }
}

fn push_name_key(out: &mut Vec<char>)
    ensures
        final(out)@ == old(out)@ + lit_name_key(),
{
    out.push('{');
    out.push('"');
    out.push('n');
    out.push('a');
    out.push('m');
    out.push('e');
    out.push('"');
    out.push(':');
    proof {
        assert(out@ =~= old(out)@ + lit_name_key());
    }
}

fn push_questions_key(out: &mut Vec<char>)
    ensures
        final(out)@ == old(out)@ + lit_questions_key(),
{
    out.push(',');
    out.push('"');
    out.push('q');
    out.push('u');
    out.push('e');
    out.push('s');
    out.push('t');
    out.push('i');
    out.push('o');
    out.push('n');
    out.push('s');
    out.push('"');
    out.push(':');
    out.push('[');
    proof {
        assert(out@ =~= old(out)@ + lit_questions_key());
    }
}

#[verifier::rlimit(30)]
fn push_question(out: &mut Vec<char>, q: &crate::model::Question)
    ensures
        final(out)@ == old(out)@ + json_of_question(q@),
{
    push_prompt_key(out);
    push_quoted(out, q.prompt.as_str());
    push_choices_key(out);
    push_choices(out, &q.choices);
    push_answer_key(out);
    out.push(q.answer.token());
    out.push('"');
    out.push('}');
    proof {
        assert(out@ =~= old(out)@ + json_of_question(q@));
    }
}

fn push_questions(out: &mut Vec<char>, questions: &Vec<crate::model::Question>)
    ensures
        final(out)@ == old(out)@ + comma_join(question_texts(questions.deep_view())),
{
    let ghost parts = question_texts(questions.deep_view());
    let mut i: usize = 0;
    while i < questions.len()
        invariant
            parts == question_texts(questions.deep_view()),
            parts.len() == questions.len(),
            i <= questions.len(),
            out@ == old(out)@ + comma_join(parts.take(i as int)),
        decreases questions.len() - i,
    {
        if i > 0 {
            out.push(',');
        }
        push_question(out, &questions[i]);
        proof {
            assert(parts[i as int] == json_of_question(questions.deep_view()[i as int]));
            assert(questions.deep_view()[i as int] == questions@[i as int]@);
            lemma_comma_join_snoc(parts.take(i as int), parts[i as int]);
            assert(parts.take(i as int).push(parts[i as int]) =~= parts.take(i as int + 1));
            assert(out@ =~= old(out)@ + comma_join(parts.take(i as int + 1)));
        }
        i = i + 1;
    }
    proof {
        assert(parts.take(questions.len() as int) =~= parts);
    }
}

/// Relies on `String`'s `FromIterator` implementation, reached through
/// `Iterator::collect`: the collected string holds exactly the characters of
/// the vector, in order.
#[verifier::external_body]
fn string_from_chars(v: &Vec<char>) -> (r: String)
    ensures
        r@ == v@,
{
    v.iter().collect()
}

impl Exam {
    /// The complete payload a save writes: the exam as one JSON object.
    /// The encoding is a function of the exam alone, so saving an unchanged
    /// exam always reproduces the same text.
    pub fn to_json(&self) -> (r: String)
        ensures
            r@ == json_of_exam(self@),
    {
        let mut out: Vec<char> = Vec::new();
        push_name_key(&mut out);
        push_quoted(&mut out, self.name.as_str());
        push_questions_key(&mut out);
        push_questions(&mut out, &self.questions);
        out.push(']');
        out.push('}');
        proof {
            assert(out@ =~= json_of_exam(self@));
        }
        string_from_chars(&out)
    }
}

/// Saving the same unchanged exam twice produces identical payloads both
/// times: the encoding depends on nothing but the exam.
pub proof fn lemma_save_deterministic(e: ExamView, first: Seq<char>, second: Seq<char>)
    requires
        first == json_of_exam(e),
        second == json_of_exam(e),
    ensures
        first == second,
{
}

} // verus!
