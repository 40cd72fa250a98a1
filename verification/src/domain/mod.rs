//! Users and their subscriptions.

pub mod laws;
pub mod subscription;
pub mod user;

pub use subscription::{Schedule, ScheduleView, Subscription, SubscriptionView, TimeWindow};
pub use user::{Channel, User, UserKey, UserKeyView, UserView};
