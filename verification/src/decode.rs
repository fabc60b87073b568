//! A specification-level reading of the persistence encoding, defined so that
//! the round trip can be stated and proved: parsing the exact payload the
//! encoder produces recovers the exam — its name, every prompt, every choice
//! list in order, and every answer slot.
//!
//! Persistence itself is write-only; these definitions exist to pin down that
//! the encoding loses nothing and is unambiguous on everything it produces.

use vstd::prelude::*;
use vstd::utf8::char_u32_cast;

use crate::json::choice_token;
use crate::json::comma_join;
use crate::json::escape_char;
use crate::json::escape_string;
use crate::json::hex_digit;
use crate::json::json_of_exam;
use crate::json::json_of_question;
use crate::json::lit_answer_key;
use crate::json::lit_choices_key;
use crate::json::lit_exam_end;
use crate::json::lit_name_key;
use crate::json::lit_prompt_key;
use crate::json::lit_question_end;
use crate::json::lit_questions_key;
use crate::json::question_texts;
use crate::json::quoted;
use crate::json::quoted_all;
use crate::model::Choice;
use crate::model::ExamView;
use crate::model::QuestionView;

verus! {

/// The value of a lowercase hexadecimal digit, or -1 for any other character.
pub open spec fn hex_val(c: char) -> int {
    if c == '0' {
        0
    } else if c == '1' {
        1
    } else if c == '2' {
        2
    } else if c == '3' {
        3
    } else if c == '4' {
        4
    } else if c == '5' {
        5
    } else if c == '6' {
        6
    } else if c == '7' {
        7
    } else if c == '8' {
        8
    } else if c == '9' {
        9
    } else if c == 'a' {
        10
    } else if c == 'b' {
        11
    } else if c == 'c' {
        12
    } else if c == 'd' {
        13
    } else if c == 'e' {
        14
    } else if c == 'f' {
        15
    } else {
        -1
    }
}

/// The character a two-character escape stands for, keyed by its second
/// character; `\u` escapes are handled separately.
pub open spec fn unescape_short(c: char) -> Option<char> {
    if c == '"' {
        Some('"')
    } else if c == '\\' {
        Some('\\')
    } else if c == 'b' {
        Some('\u{08}')
    } else if c == 't' {
        Some('\t')
    } else if c == 'n' {
        Some('\n')
    } else if c == 'f' {
        Some('\u{0C}')
    } else if c == 'r' {
        Some('\r')
    } else {
        Option::None
    }
}

/// Reads a JSON string from after its opening quote up to and over its
/// closing quote; yields the unescaped text and what follows the quote.
pub open spec fn parse_string_body(input: Seq<char>) -> Option<(Seq<char>, Seq<char>)>
    decreases input.len(),
{
    if input.len() == 0 {
        Option::None
    } else if input[0] == '"' {
        Some((Seq::empty(), input.skip(1)))
    } else if input[0] == '\\' {
        if input.len() < 2 {
            Option::None
        } else if input[1] == 'u' {
            if input.len() < 6 {
                Option::None
            } else if input[2] == '0' && input[3] == '0' && hex_val(input[4]) >= 0 && hex_val(
                input[5],
            ) >= 0 {
                let code = 16 * hex_val(input[4]) + hex_val(input[5]);
                match parse_string_body(input.skip(6)) {
                    Some(p) => Some((seq![((code as u32) as char)] + p.0, p.1)),
                    Option::None => Option::None,
                }
            } else {
                Option::None
            }
        } else {
            match unescape_short(input[1]) {
                Some(c) => match parse_string_body(input.skip(2)) {
                    Some(p) => Some((seq![c] + p.0, p.1)),
                    Option::None => Option::None,
                },
                Option::None => Option::None,
            }
        }
    } else {
        match parse_string_body(input.skip(1)) {
            Some(p) => Some((seq![input[0]] + p.0, p.1)),
            Option::None => Option::None,
        }
    }
}

/// Whatever a string read leaves behind is strictly shorter than its input:
/// at least the closing quote is consumed.
pub proof fn lemma_parse_string_body_shrinks(input: Seq<char>)
    ensures
        parse_string_body(input) matches Some(p) ==> p.1.len() < input.len(),
    decreases input.len(),
{
    if input.len() == 0 {
    } else if input[0] == '"' {
    } else if input[0] == '\\' {
        if input.len() >= 6 {
            lemma_parse_string_body_shrinks(input.skip(6));
        }
        if input.len() >= 2 {
            lemma_parse_string_body_shrinks(input.skip(2));
        }
    } else {
        lemma_parse_string_body_shrinks(input.skip(1));
    }
}

/// Consumes an expected literal fragment, or fails.
pub open spec fn expect(input: Seq<char>, lit: Seq<char>) -> Option<Seq<char>> {
    if lit.len() <= input.len() && input.take(lit.len() as int) == lit {
        Some(input.skip(lit.len() as int))
    } else {
        Option::None
    }
}

/// An expected fragment standing at the front is consumed exactly.
pub proof fn lemma_expect_prefix(lit: Seq<char>, rest: Seq<char>)
    ensures
        expect(lit + rest, lit) == Some(rest),
{
    assert((lit + rest).take(lit.len() as int) =~= lit);
    assert((lit + rest).skip(lit.len() as int) =~= rest);
}

/// The answer slot a token letter names, if any.
pub open spec fn token_to_choice(c: char) -> Option<Choice> {
    if c == 'A' {
        Some(Choice::A)
    } else if c == 'B' {
        Some(Choice::B)
    } else if c == 'C' {
        Some(Choice::C)
    } else if c == 'D' {
        Some(Choice::D)
    } else if c == 'E' {
        Some(Choice::E)
    } else if c == 'F' {
        Some(Choice::F)
    } else if c == 'G' {
        Some(Choice::G)
    } else if c == 'H' {
        Some(Choice::H)
    } else {
        Option::None
    }
}

/// Reads the comma-separated string literals of a choice array, stopping in
/// front of the closing bracket without consuming it.
pub open spec fn parse_choices(input: Seq<char>) -> Option<(Seq<Seq<char>>, Seq<char>)>
    decreases input.len(),
    via parse_choices_decreases
{
    if input.len() == 0 {
        Option::None
    } else if input[0] == ']' {
        Some((Seq::empty(), input))
    } else if input[0] == '"' {
        match parse_string_body(input.skip(1)) {
            Some(p) => {
                if p.1.len() > 0 && p.1[0] == ',' {
                    match parse_choices(p.1.skip(1)) {
                        Some(q) => if q.0.len() > 0 {
                            Some((seq![p.0] + q.0, q.1))
                        } else {
                            Option::None
                        },
                        Option::None => Option::None,
                    }
                } else if p.1.len() > 0 && p.1[0] == ']' {
                    Some((seq![p.0], p.1))
                } else {
                    Option::None
                }
            },
            Option::None => Option::None,
        }
    } else {
        Option::None
    }
}

#[via_fn]
proof fn parse_choices_decreases(input: Seq<char>) {
    if input.len() > 0 && input[0] != ']' && input[0] == '"' {
        lemma_parse_string_body_shrinks(input.skip(1));
    }
}

/// Whatever a choice array read leaves behind is no longer than its input.
pub proof fn lemma_parse_choices_shrinks(input: Seq<char>)
    ensures
        parse_choices(input) matches Some(p) ==> p.1.len() <= input.len(),
    decreases input.len(),
{
    if input.len() > 0 && input[0] != ']' && input[0] == '"' {
        lemma_parse_string_body_shrinks(input.skip(1));
        if let Some(p) = parse_string_body(input.skip(1)) {
            if p.1.len() > 0 && p.1[0] == ',' {
                lemma_parse_choices_shrinks(p.1.skip(1));
            }
        }
    }
}

/// Reads one question object and what follows it.
pub open spec fn parse_question(input: Seq<char>) -> Option<(QuestionView, Seq<char>)> {
    match expect(input, lit_prompt_key()) {
        Some(r1) => {
            if r1.len() > 0 && r1[0] == '"' {
                match parse_string_body(r1.skip(1)) {
                    Some(p) => {
                        match expect(p.1, lit_choices_key()) {
                            Some(r3) => {
                                match parse_choices(r3) {
                                    Some(c) => {
                                        match expect(c.1, lit_answer_key()) {
                                            Some(r5) => {
                                                if r5.len() > 0 {
                                                    match token_to_choice(r5[0]) {
                                                        Some(a) => {
                                                            match expect(
                                                                r5.skip(1),
                                                                lit_question_end(),
                                                            ) {
                                                                Some(r6) => Some(
                                                                    (
                                                                        QuestionView {
                                                                            prompt: p.0,
                                                                            choices: c.0,
                                                                            answer: a,
                                                                        },
                                                                        r6,
                                                                    ),
                                                                ),
                                                                Option::None => Option::None,
                                                            }
                                                        },
                                                        Option::None => Option::None,
                                                    }
                                                } else {
                                                    Option::None
                                                }
                                            },
                                            Option::None => Option::None,
                                        }
                                    },
                                    Option::None => Option::None,
                                }
                            },
                            Option::None => Option::None,
                        }
                    },
                    Option::None => Option::None,
                }
            } else {
                Option::None
            }
        },
        Option::None => Option::None,
    }
}

/// Whatever a question read leaves behind is strictly shorter than its input.
pub proof fn lemma_parse_question_shrinks(input: Seq<char>)
    ensures
        parse_question(input) matches Some(p) ==> p.1.len() < input.len(),
{
    if let Some(r1) = expect(input, lit_prompt_key()) {
        if r1.len() > 0 && r1[0] == '"' {
            lemma_parse_string_body_shrinks(r1.skip(1));
            if let Some(p) = parse_string_body(r1.skip(1)) {
                if let Some(r3) = expect(p.1, lit_choices_key()) {
                    lemma_parse_choices_shrinks(r3);
                }
            }
        }
    }
}

/// Reads the comma-separated question objects of the exam's array, stopping
/// in front of the closing bracket without consuming it.
pub open spec fn parse_questions(input: Seq<char>) -> Option<(Seq<QuestionView>, Seq<char>)>
    decreases input.len(),
    via parse_questions_decreases
{
    if input.len() == 0 {
        Option::None
    } else if input[0] == ']' {
        Some((Seq::empty(), input))
    } else {
        match parse_question(input) {
            Some(p) => {
                if p.1.len() > 0 && p.1[0] == ',' {
                    match parse_questions(p.1.skip(1)) {
                        Some(q) => if q.0.len() > 0 {
                            Some((seq![p.0] + q.0, q.1))
                        } else {
                            Option::None
                        },
                        Option::None => Option::None,
                    }
                } else if p.1.len() > 0 && p.1[0] == ']' {
                    Some((seq![p.0], p.1))
                } else {
                    Option::None
                }
            },
            Option::None => Option::None,
        }
    }
}

#[via_fn]
proof fn parse_questions_decreases(input: Seq<char>) {
    if input.len() > 0 && input[0] != ']' {
        lemma_parse_question_shrinks(input);
    }
}

/// The whole payload as an exam: the object must be complete and nothing may
/// follow it.
pub open spec fn parse_exam_text(input: Seq<char>) -> Option<ExamView> {
    match expect(input, lit_name_key()) {
        Some(r1) => {
            if r1.len() > 0 && r1[0] == '"' {
                match parse_string_body(r1.skip(1)) {
                    Some(p) => {
                        match expect(p.1, lit_questions_key()) {
                            Some(r3) => {
                                match parse_questions(r3) {
                                    Some(q) => {
                                        match expect(q.1, lit_exam_end()) {
                                            Some(r5) => {
                                                if r5.len() == 0 {
                                                    Some(ExamView { name: p.0, questions: q.0 })
                                                } else {
                                                    Option::None
                                                }
                                            },
                                            Option::None => Option::None,
                                        }
                                    },
                                    Option::None => Option::None,
                                }
                            },
                            Option::None => Option::None,
                        }
                    },
                    Option::None => Option::None,
                }
            } else {
                Option::None
            }
        },
        Option::None => Option::None,
    }
}

/// Reading back an escaped text recovers it exactly: escaping is lossless.
pub proof fn lemma_parse_escaped(s: Seq<char>, rest: Seq<char>)
    ensures
        parse_string_body(escape_string(s) + seq!['"'] + rest) == Some((s, rest)),
    decreases s.len(),
{
    let input = escape_string(s) + seq!['"'] + rest;
    if s.len() == 0 {
        assert(input =~= seq!['"'] + rest);
        assert(input[0] == '"');
        assert(input.skip(1) =~= rest);
        assert(s =~= Seq::<char>::empty());
    } else {
        let c = s[0];
        let t = s.skip(1);
        let tail = escape_string(t) + seq!['"'] + rest;
        assert(escape_string(s) == escape_char(c) + escape_string(t));
        assert(input =~= escape_char(c) + tail);
        lemma_parse_escaped(t, rest);
        assert(seq![c] + t =~= s);
        if c == '"' {
            assert(input =~= seq!['\\', '"'] + tail);
            assert(input.skip(2) =~= tail);
        } else if c == '\\' {
            assert(input =~= seq!['\\', '\\'] + tail);
            assert(input.skip(2) =~= tail);
        } else if c == '\u{08}' {
            assert(input =~= seq!['\\', 'b'] + tail);
            assert(input.skip(2) =~= tail);
        } else if c == '\t' {
            assert(input =~= seq!['\\', 't'] + tail);
            assert(input.skip(2) =~= tail);
        } else if c == '\n' {
            assert(input =~= seq!['\\', 'n'] + tail);
            assert(input.skip(2) =~= tail);
        } else if c == '\u{0C}' {
            assert(input =~= seq!['\\', 'f'] + tail);
            assert(input.skip(2) =~= tail);
        } else if c == '\r' {
            assert(input =~= seq!['\\', 'r'] + tail);
            assert(input.skip(2) =~= tail);
        } else if (c as u32) < 32 {
            let u = (c as u32) as int;
            assert(input =~= seq!['\\', 'u', '0', '0', hex_digit(u / 16), hex_digit(u % 16)]
                + tail);
            assert(input.skip(6) =~= tail);
            assert(hex_val(hex_digit(u / 16)) == u / 16);
            assert(hex_val(hex_digit(u % 16)) == u % 16);
            let code = 16 * hex_val(input[4]) + hex_val(input[5]);
            assert(code == u);
            char_u32_cast(c, c as u32);
            assert(((code as u32) as char) == c);
        } else {
            assert(input[0] == c);
            assert(input.skip(1) =~= tail);
        }
    }
}

/// Reading back an encoded choice array recovers every label in order.
pub proof fn lemma_parse_choices_round(cs: Seq<Seq<char>>, rest: Seq<char>)
    requires
        rest.len() > 0,
        rest[0] == ']',
    ensures
        parse_choices(comma_join(quoted_all(cs)) + rest) == Some((cs, rest)),
    decreases cs.len(),
{
    let input = comma_join(quoted_all(cs)) + rest;
    if cs.len() == 0 {
        assert(input =~= rest);
        assert(cs =~= Seq::<Seq<char>>::empty());
    } else if cs.len() == 1 {
        assert(quoted_all(cs)[0] == quoted(cs[0]));
        assert(comma_join(quoted_all(cs)) == quoted(cs[0]));
        assert(input =~= seq!['"'] + (escape_string(cs[0]) + seq!['"'] + rest));
        assert(input[0] == '"');
        assert(input.skip(1) =~= escape_string(cs[0]) + seq!['"'] + rest);
        lemma_parse_escaped(cs[0], rest);
        assert(seq![cs[0]] =~= cs);
    } else {
        assert(quoted_all(cs)[0] == quoted(cs[0]));
        assert(quoted_all(cs).skip(1) =~= quoted_all(cs.skip(1)));
        assert(comma_join(quoted_all(cs)) == quoted(cs[0]) + seq![','] + comma_join(
            quoted_all(cs.skip(1)),
        ));
        let mid = seq![','] + comma_join(quoted_all(cs.skip(1))) + rest;
        assert(input =~= seq!['"'] + (escape_string(cs[0]) + seq!['"'] + mid));
        assert(input[0] == '"');
        assert(input.skip(1) =~= escape_string(cs[0]) + seq!['"'] + mid);
        lemma_parse_escaped(cs[0], mid);
        assert(mid[0] == ',');
        assert(mid.skip(1) =~= comma_join(quoted_all(cs.skip(1))) + rest);
        lemma_parse_choices_round(cs.skip(1), rest);
        assert(seq![cs[0]] + cs.skip(1) =~= cs);
    }
}

/// Reading back one encoded question recovers it exactly.
#[verifier::rlimit(100)]
pub proof fn lemma_parse_question_round(q: QuestionView, rest: Seq<char>)
    ensures
        parse_question(json_of_question(q) + rest) == Some((q, rest)),
{
    let input = json_of_question(q) + rest;
    let x1 = quoted(q.prompt) + lit_choices_key() + comma_join(quoted_all(q.choices))
        + lit_answer_key() + seq![choice_token(q.answer)] + lit_question_end() + rest;
    assert(input =~= lit_prompt_key() + x1);
    lemma_expect_prefix(lit_prompt_key(), x1);
    assert(expect(input, lit_prompt_key()) == Some(x1));
    let x2 = lit_choices_key() + comma_join(quoted_all(q.choices)) + lit_answer_key() + seq![
        choice_token(q.answer),
    ] + lit_question_end() + rest;
    assert(x1 =~= seq!['"'] + (escape_string(q.prompt) + seq!['"'] + x2));
    assert(x1[0] == '"');
    assert(x1.skip(1) =~= escape_string(q.prompt) + seq!['"'] + x2);
    lemma_parse_escaped(q.prompt, x2);
    let x3 = comma_join(quoted_all(q.choices)) + (lit_answer_key() + seq![choice_token(q.answer)]
        + lit_question_end() + rest);
    assert(x2 =~= lit_choices_key() + x3);
    lemma_expect_prefix(lit_choices_key(), x3);
    let x4 = lit_answer_key() + seq![choice_token(q.answer)] + lit_question_end() + rest;
    assert(x3 =~= comma_join(quoted_all(q.choices)) + x4);
    assert(x4[0] == ']');
    lemma_parse_choices_round(q.choices, x4);
    assert(parse_choices(x3) == Some((q.choices, x4)));
    let x5 = seq![choice_token(q.answer)] + lit_question_end() + rest;
    assert(x4 =~= lit_answer_key() + x5);
    lemma_expect_prefix(lit_answer_key(), x5);
    assert(x5[0] == choice_token(q.answer));
    assert(token_to_choice(choice_token(q.answer)) == Some(q.answer));
    assert(x5.skip(1) =~= lit_question_end() + rest);
    lemma_expect_prefix(lit_question_end(), rest);
    assert(expect(x5.skip(1), lit_question_end()) == Some(rest));
    assert(QuestionView { prompt: q.prompt, choices: q.choices, answer: q.answer } == q);
}

/// Reading back the encoded question array recovers every question in order.
#[verifier::rlimit(100)]
pub proof fn lemma_parse_questions_round(qs: Seq<QuestionView>, rest: Seq<char>)
    requires
        rest.len() > 0,
        rest[0] == ']',
    ensures
        parse_questions(comma_join(question_texts(qs)) + rest) == Some((qs, rest)),
    decreases qs.len(),
{
    let input = comma_join(question_texts(qs)) + rest;
    if qs.len() == 0 {
        assert(input =~= rest);
        assert(qs =~= Seq::<QuestionView>::empty());
    } else if qs.len() == 1 {
        assert(question_texts(qs)[0] == json_of_question(qs[0]));
        assert(comma_join(question_texts(qs)) == json_of_question(qs[0]));
        assert(input =~= json_of_question(qs[0]) + rest);
        lemma_parse_question_round(qs[0], rest);
        assert(input[0] == '{');
        assert(input[0] != ']');
        assert(seq![qs[0]] =~= qs);
    } else {
        assert(question_texts(qs)[0] == json_of_question(qs[0]));
        assert(question_texts(qs).skip(1) =~= question_texts(qs.skip(1)));
        assert(comma_join(question_texts(qs)) == json_of_question(qs[0]) + seq![','] + comma_join(
            question_texts(qs.skip(1)),
        ));
        let mid = seq![','] + comma_join(question_texts(qs.skip(1))) + rest;
        assert(input =~= json_of_question(qs[0]) + mid);
        lemma_parse_question_round(qs[0], mid);
        assert(input[0] == '{');
        assert(input[0] != ']');
        assert(mid[0] == ',');
        assert(mid.skip(1) =~= comma_join(question_texts(qs.skip(1))) + rest);
        lemma_parse_questions_round(qs.skip(1), rest);
        assert(seq![qs[0]] + qs.skip(1) =~= qs);
    }
}

/// Round trip: reading back the exact payload the encoder produces for an
/// exam yields that exam — the name, each prompt, each choice list with its
/// order, and each answer slot are all recovered.
pub proof fn lemma_json_round_trip(e: ExamView)
    ensures
        parse_exam_text(json_of_exam(e)) == Some(e),
{
    let input = json_of_exam(e);
    let x1 = quoted(e.name) + lit_questions_key() + comma_join(question_texts(e.questions))
        + lit_exam_end();
    assert(input =~= lit_name_key() + x1);
    lemma_expect_prefix(lit_name_key(), x1);
    let x2 = lit_questions_key() + comma_join(question_texts(e.questions)) + lit_exam_end();
    assert(x1 =~= seq!['"'] + (escape_string(e.name) + seq!['"'] + x2));
    assert(x1[0] == '"');
    assert(x1.skip(1) =~= escape_string(e.name) + seq!['"'] + x2);
    lemma_parse_escaped(e.name, x2);
    let x3 = comma_join(question_texts(e.questions)) + lit_exam_end();
    assert(x2 =~= lit_questions_key() + x3);
    lemma_expect_prefix(lit_questions_key(), x3);
    assert(lit_exam_end()[0] == ']');
    lemma_parse_questions_round(e.questions, lit_exam_end());
    lemma_expect_prefix(lit_exam_end(), Seq::<char>::empty());
    assert(lit_exam_end() + Seq::<char>::empty() =~= lit_exam_end());
    assert(expect(lit_exam_end(), lit_exam_end()) == Some(Seq::<char>::empty()));
    assert(ExamView { name: e.name, questions: e.questions } == e);
}

} // verus!
