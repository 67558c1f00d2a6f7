//! Per-feed subscription state: which entries of a feed have been seen, which
//! are waiting to be acted on, and the binary form in which that knowledge is
//! kept between runs.
//!
//! - [`item`], [`feed_state`] and [`subscription`] hold the data and the
//!   merge of a fetched batch into what is already known.
//! - [`wire`] says which bytes stand for which value.
//! - [`encode`] writes those bytes; [`scalars`] and [`decode`] read them
//!   back, and accept nothing else.
//! - [`laws`] states what holds of all of it together.

pub mod decode;
pub mod encode;
pub mod feed_state;
pub mod item;
pub mod laws;
pub mod scalars;
pub mod subscription;
pub mod wire;

pub use crate::decode::{deserialize, vec_deserialize};
pub use crate::encode::{serialize, vec_serialize};
pub use crate::feed_state::{
    FeedState, FeedStateView, MergeResult, SessionSummaryRecord, SessionSummaryRecordView,
};
pub use crate::item::{Item, ItemView};
pub use crate::subscription::{Subscription, SubscriptionView};
