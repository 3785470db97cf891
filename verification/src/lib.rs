//! Verified core of an academic-credentialing registry.
//!
//! Institutions register and get verified, verified institutions publish
//! courses, students enroll and complete courses, completions mint
//! certificates, certificates can be revoked, and third parties submit
//! verification requests against certificate records. A support-ticket
//! registry tracks user-filed issues through a status lifecycle.
//!
//! Each registry owns its records and secondary indices as explicit state;
//! the surrounding runtime authenticates callers and supplies timestamps,
//! and hands both in as plain arguments. Every entry point states exactly
//! when it succeeds, which error it returns otherwise, and how the state
//! changes; a failed call leaves the state untouched.

pub mod certificate;
pub mod course;
pub mod index;
pub mod institution;
pub mod records;
pub mod revoked;
pub mod support_ticket;
pub mod seqs;
pub mod verification;
