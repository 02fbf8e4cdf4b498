//! Verified core of a Telegram HTML export cleaner: extraction of messages
//! from parsed HTML, natural ordering of export files, participant
//! placeholders and rule-based redaction of sensitive text.

pub mod text;
pub mod order;
pub mod natural;
pub mod dom;
pub mod entries;
pub mod patterns;
pub mod settings;
pub mod redact;
pub mod participants;
pub mod pipeline;
pub mod icon;
