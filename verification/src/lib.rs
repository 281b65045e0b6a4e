//! Aggregation core for per-bot, per-repository review activity: gap-filled
//! time-series matrices, ranked top-N lists, aliased batch fetch
//! reconciliation, and idempotent upsert plans.

pub mod alias;
pub mod bq;
pub mod cache;
pub mod dates;
pub mod decimal;
pub mod github;
pub mod params;
pub mod rank;
pub mod series;
pub mod types;
pub mod upsert;
