//! The data a GPA is made of: courses with their exams and progress,
//! semesters, the grading system, and the statistics over the courses.

pub mod course;
pub mod exam;
pub mod gpa;
pub mod grading_system;
pub mod order;
pub mod overview;
pub mod progress;
pub mod semester;
pub mod sorting;
pub mod stats;

pub use course::Course;
pub use exam::{Date, Exam, ExamKind, Time};
pub use gpa::Gpa;
pub use grading_system::GradingSystem;
pub use progress::{Mark, Progress, ProgressRow};
pub use semester::Semester;
pub use stats::Stats;
