//! The payload shapes the pipeline works on.
//!
//! These mirror the JSON documents the provider returns, holding their
//! fields as plain values; season dates are held as [`Date`]. The
//! application layer decodes wire bytes into copies of these shapes and
//! converts; the pipeline's decisions over them are verified here and in
//! the neighbouring modules.

use vstd::prelude::*;

use crate::date::Date;

verus! {

/// The seasons of one competition.
pub struct ApiCompetitionSeasons {
    pub seasons: Vec<ApiCompetitionSeason>,
}

/// One season of a competition.
pub struct ApiCompetitionSeason {
    pub id: String,
    pub name: String,
    pub year: String,
    pub start_date: Date,
    pub end_date: Date,
}

/// The scheduled events of a season.
pub struct ApiSeasonSchedules {
    pub schedules: Vec<ApiSportEvent>,
}

/// One scheduled event.
pub struct ApiSportEvent {
    pub id: String,
}

/// The competitors of a season.
pub struct ApiSeasonCompetitors {
    pub season_competitors: Vec<ApiSeasonCompetitor>,
}

/// One competitor of a season.
pub struct ApiSeasonCompetitor {
    pub id: String,
    pub name: String,
}

/// The statistics document of one competitor.
pub struct ApiSeasonCompetitorStatistics {
    pub competitor: ApiSeasonCompetitorStatistic,
}

/// One competitor with its team and player statistics.
pub struct ApiSeasonCompetitorStatistic {
    pub id: String,
    pub statistics: ApiGameStatistic,
    pub players: Vec<ApiGamePlayers>,
}

/// Team-level statistics.
pub struct ApiGameStatistic {
    pub goals_scored: u16,
}

/// One player with statistics.
pub struct ApiGamePlayers {
    pub id: String,
    pub name: String,
    pub statistics: ApiPlayerGameStatistic,
}

/// Player-level statistics.
pub struct ApiPlayerGameStatistic {
    pub goals_scored: u16,
    pub assists: u16,
}

} // verus!
