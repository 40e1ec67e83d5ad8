//! The run-level decisions around the retriever.
//!
//! One run fetches the seasons of a competition, picks the season named in
//! the configuration, fetches the season's competitors, and accumulates
//! each competitor's players into the database before ranking. The
//! decisions — which season, which players to keep, which errors abort the
//! run and which only skip one query unit — are verified here; the
//! application layer only performs the surrounding I/O.

use vstd::prelude::*;

use crate::api::ApiCompetitionSeasons;
use crate::api::ApiGamePlayers;
use crate::api::ApiSeasonCompetitorStatistics;
use crate::fetch::FetchError;
use crate::player::add_player_spec;
use crate::player::Player;
use crate::player::PlayerDB;

verus! {

/// Why a run aborts, or why one query unit was skipped.
#[derive(Clone, Copy, Debug, PartialEq, Eq, Structural)]
pub enum RunError {
    /// The required credential is absent from the environment.
    MissingCredential,
    /// The cache directory could not be created.
    CacheSetupFailed,
    /// One query unit's retrieval failed.
    Retrieval(FetchError),
    /// The named reference season is absent from the fetched collection.
    MissingReferenceSeason,
}

/// Whether an error aborts the whole run. Retrieval errors are scoped to
/// their query unit: the unit is skipped and the run goes on; every other
/// error is fatal.
pub fn error_is_fatal(e: RunError) -> (r: bool)
    ensures
        r == !(e is Retrieval),
{
    match e {
        RunError::Retrieval(_) => false,
        _ => true,
    }
}

/// The first season carrying the wanted name, if any. A run that finds
/// none aborts with [`RunError::MissingReferenceSeason`] before any
/// further retrieval.
pub fn find_season(seasons: &ApiCompetitionSeasons, name: &String) -> (r: Option<usize>)
    ensures
        match r {
            Option::Some(k) => {
                &&& k < seasons.seasons@.len()
                &&& seasons.seasons@[k as int].name@ == name@
                &&& forall|j: int|
                    0 <= j < k ==> (#[trigger] seasons.seasons@[j]).name@ != name@
            },
            Option::None => forall|j: int|
                0 <= j < seasons.seasons@.len() ==> (#[trigger] seasons.seasons@[j]).name@
                    != name@,
        },
{
    let n = seasons.seasons.len();
    let mut i: usize = 0;
    while i < n
        invariant
            0 <= i <= n,
            n == seasons.seasons@.len(),
            forall|j: int| 0 <= j < i ==> (#[trigger] seasons.seasons@[j]).name@ != name@,
        decreases n - i,
    {
        if seasons.seasons[i].name == *name {
            return Option::Some(i);
        }
        i = i + 1;
    }
    Option::None
}

/// The player record carried by one fetched player entry.
pub open spec fn player_of(q: ApiGamePlayers) -> Player {
    Player {
        id: q.id,
        name: q.name,
        goals_scored: q.statistics.goals_scored,
        assists: q.statistics.assists,
    }
}

/// What accumulating a fetched player list does to the collection: each
/// player with at least one goal is added in order (replacing an earlier
/// record under the same identifier); players without goals are skipped.
pub open spec fn accumulate_spec(db: Seq<Player>, ps: Seq<ApiGamePlayers>) -> Seq<Player>
    decreases ps.len(),
{
    if ps.len() == 0 {
        db
    } else {
        let rest = accumulate_spec(db, ps.drop_last());
        if ps.last().statistics.goals_scored == 0 {
            rest
        } else {
            add_player_spec(rest, player_of(ps.last()))
        }
    }
}

/// Accumulate one competitor's fetched players into the database:
/// exactly [`accumulate_spec`], leaving the ranked views untouched.
pub fn accumulate_competitor(db: &mut PlayerDB, stats: &ApiSeasonCompetitorStatistics)
    requires
        old(db).wf(),
    ensures
        final(db).wf(),
        final(db).players@ == accumulate_spec(
            old(db).players@,
            stats.competitor.players@,
        ),
        final(db).top_scorers == old(db).top_scorers,
        final(db).top_assists == old(db).top_assists,
{
    let ghost psv = stats.competitor.players@;
    let n = stats.competitor.players.len();
    let mut i: usize = 0;
    while i < n
        invariant
            0 <= i <= n,
            psv == stats.competitor.players@,
            n == psv.len(),
            db.wf(),
            db.players@ == accumulate_spec(old(db).players@, psv.take(i as int)),
            db.top_scorers == old(db).top_scorers,
            db.top_assists == old(db).top_assists,
        decreases n - i,
    {
        proof {
            assert(psv.take(i + 1).drop_last() =~= psv.take(i as int));
            assert(psv.take(i + 1).last() == psv[i as int]);
        }
        let q = &stats.competitor.players[i];
        if q.statistics.goals_scored > 0 {
            let p = Player {
                id: q.id.clone(),
                name: q.name.clone(),
                goals_scored: q.statistics.goals_scored,
                assists: q.statistics.assists,
            };
            db.add_player(p);
        }
        i = i + 1;
    }
    proof {
        assert(psv.take(n as int) =~= psv);
    }
}

} // verus!
