//! A transactional outbox relay: entries recorded next to business state are
//! claimed in creation order and handed to a message broker under a chosen
//! delivery policy.

pub mod config;
pub mod outbox;
pub mod publish;
pub mod relay;
