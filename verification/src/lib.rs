//! A verified core for a seasonal-statistics leaderboard: a cache-backed
//! retriever modelled as a state machine of decisions, a key-value model
//! of the byte cache, a competition-ranking engine with tie handling, and
//! the run-level pipeline decisions around them.

use vstd::prelude::*;

pub mod api;
pub mod cache;
pub mod date;
pub mod fetch;
pub mod order;
pub mod pipeline;
pub mod player;
pub mod rank;

pub use api::ApiCompetitionSeason;
pub use api::ApiCompetitionSeasons;
pub use api::ApiGamePlayers;
pub use api::ApiGameStatistic;
pub use api::ApiPlayerGameStatistic;
pub use api::ApiSeasonCompetitor;
pub use api::ApiSeasonCompetitorStatistic;
pub use api::ApiSeasonCompetitorStatistics;
pub use api::ApiSeasonCompetitors;
pub use api::ApiSeasonSchedules;
pub use api::ApiSportEvent;
pub use cache::CacheStore;
pub use date::days_in_month;
pub use date::format_date;
pub use date::parse_date;
pub use date::Date;
pub use fetch::fetch_start;
pub use fetch::fetch_step;
pub use fetch::FetchAction;
pub use fetch::FetchError;
pub use fetch::FetchEvent;
pub use fetch::FetchState;
pub use fetch::RATE_LIMIT_DELAY_SECS;
pub use order::str_lt;
pub use pipeline::accumulate_competitor;
pub use pipeline::error_is_fatal;
pub use pipeline::find_season;
pub use pipeline::RunError;
pub use player::Player;
pub use player::PlayerDB;
pub use player::DEFAULT_LIMIT;
pub use rank::rank;

verus! {

} // verus!
