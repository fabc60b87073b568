//! In-memory model for authoring multiple-choice exams, together with a
//! verified JSON encoder that persists an exam as a single JSON object.

pub mod creator;
pub mod decode;
pub mod json;
pub mod model;

pub use creator::ExamCreator;
pub use model::Choice;
pub use model::Exam;
pub use model::Question;
