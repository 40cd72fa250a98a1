//! WaitingForASignal: live UK train departures by Telegram and SMS.
//!
//! Users subscribe to stations; the poller watches the departure boards and
//! tells each user what changed. This library holds what the service decides
//! and computes: it parses commands, keeps users and their subscriptions,
//! compares boards and words the replies. The program around it talks to
//! Telegram, Twilio and the Darwin API and keeps the files.

pub mod board;
pub mod channel;
pub mod clock;
pub mod config;
pub mod darwin;
pub mod domain;
pub mod handlers;
pub mod markup;
pub mod metrics;
pub mod notifier;
pub mod poller;
pub mod sorting;
pub mod stations;
pub mod storage;
pub mod table;
pub mod text;
pub mod text_laws;
pub mod unicode;
