//! The whole authoring session's state: the exam being edited plus the most
//! recent save failure, if any. The GUI shell mutates the exam through the
//! model's operations and reports each save attempt's outcome here.

use vstd::prelude::*;

use crate::model::Exam;
use crate::model::QuestionView;

verus! {

/// The process-wide state of one authoring session.
pub struct ExamCreator {
    /// The exam being edited.
    pub exam: Exam,
    /// The message of the most recent failed save attempt. It is not cleared
    /// by a later successful save; the stale message then stays visible.
    pub error_message: Option<String>,
}

impl ExamCreator {
    /// A session starts with an empty exam and no error on display.
    pub fn new() -> (r: ExamCreator)
        ensures
            r.exam@.name == Seq::<char>::empty(),
            r.exam@.questions == Seq::<QuestionView>::empty(),
            r.error_message is None,
    {
        ExamCreator { exam: Exam::new(), error_message: None }
    }

    /// Notes the outcome of a save attempt. The in-memory exam is never
    /// touched: a failed save loses nothing that was typed. A failure's
    /// message replaces whatever was on display; a success leaves the
    /// display alone, so a stale error can outlive the failure it reports.
    pub fn record_save_result(&mut self, outcome: Result<(), String>)
        ensures
            final(self).exam == old(self).exam,
            outcome matches Err(m) ==> final(self).error_message == Some(m),
            outcome is Ok ==> final(self).error_message == old(self).error_message,
    {
        match outcome {
            Ok(_) => {
            },
            Err(m) => {
                self.error_message = Some(m);
            },
        }
    }
}

} // verus!
