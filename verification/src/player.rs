//! The player database: accumulation keyed by identifier, and the two
//! ranked views derived from it.
//!
//! Players are kept in a vector whose identifiers are pairwise distinct;
//! adding a player whose identifier is already present replaces the old
//! record (only the most recent observation per identifier is kept).
//! [`PlayerDB::index_players`] recomputes both ranked views from scratch,
//! so they are derived state, pinned to [`rank_spec`] of the collection.

use vstd::prelude::*;

use crate::rank::rank;
use crate::rank::rank_spec;
use crate::rank::pairs_view;
use crate::rank::Entry;

verus! {

/// How many entries each ranked view keeps before the tie extension.
pub const DEFAULT_LIMIT: usize = 10;

/// A competitor's seasonal record.
pub struct Player {
    pub id: String,
    pub name: String,
    pub goals_scored: u16,
    pub assists: u16,
}

/// The goal entries carried by a player sequence.
pub open spec fn goal_entries(s: Seq<Player>) -> Seq<Entry> {
    s.map_values(|p: Player| Entry { id: p.id@, metric: p.goals_scored })
}

/// The assist entries carried by a player sequence.
pub open spec fn assist_entries(s: Seq<Player>) -> Seq<Entry> {
    s.map_values(|p: Player| Entry { id: p.id@, metric: p.assists })
}

/// No two players share an identifier.
pub open spec fn distinct_player_ids(s: Seq<Player>) -> bool {
    forall|i: int, j: int| 0 <= i < j < s.len() ==> (#[trigger] s[i]).id@ != (#[trigger] s[j]).id@
}

/// Position of the player carrying `id`, or `-1` when absent.
pub open spec fn find_id(s: Seq<Player>, id: Seq<char>) -> int
    decreases s.len(),
{
    if s.len() == 0 {
        -1
    } else if s[0].id@ == id {
        0
    } else {
        let r: int = find_id(s.drop_first(), id);
        if r == -1 {
            -1
        } else {
            r + 1
        }
    }
}

/// A scan that stops at the first matching identifier computes `find_id`.
proof fn lemma_find_id_at(s: Seq<Player>, id: Seq<char>, i: int)
    requires
        0 <= i <= s.len(),
        forall|k: int| 0 <= k < i ==> (#[trigger] s[k]).id@ != id,
        i < s.len() ==> s[i].id@ == id,
    ensures
        find_id(s, id) == if i < s.len() {
            i
        } else {
            -1
        },
    decreases i,
{
    if s.len() == 0 {
    } else if i == 0 {
        if s[0].id@ != id {
            lemma_find_id_at(s.drop_first(), id, 0);
        }
    } else {
        let t = s.drop_first();
        assert(forall|k: int| 0 <= k < i - 1 ==> (#[trigger] t[k]).id@ == s[k + 1].id@);
        lemma_find_id_at(t, id, i - 1);
    }
}

/// The metric a ranked view displays: assists or goals.
pub open spec fn metric_val(p: Player, assists: bool) -> u16 {
    if assists {
        p.assists
    } else {
        p.goals_scored
    }
}

/// The metrics displayed by a sequence of rows.
pub open spec fn rows_metrics(rows: Seq<(usize, String, u16)>) -> Seq<u16> {
    rows.map_values(|t: (usize, String, u16)| t.2)
}

/// How many of the first `i` metrics are strictly greater than `v`.
pub open spec fn count_higher(metrics: Seq<u16>, v: u16, i: int) -> int
    decreases i,
{
    if i <= 0 {
        0
    } else {
        count_higher(metrics, v, i - 1) + (if metrics[i - 1] > v {
            1int
        } else {
            0int
        })
    }
}

/// The 1-based competition position of row `i`: one more than the number
/// of earlier rows with a strictly greater metric. Tied rows share their
/// position, and the next distinct value's position skips the tied count
/// (1, 1, 3 — not 1, 1, 2).
pub open spec fn position_at(metrics: Seq<u16>, i: int) -> int {
    1 + count_higher(metrics, metrics[i], i)
}

/// The count reads only the first `i` metrics.
proof fn lemma_count_higher_prefix(m1: Seq<u16>, m2: Seq<u16>, v: u16, i: int)
    requires
        forall|k: int| 0 <= k < i ==> m1[k] == m2[k],
    ensures
        count_higher(m1, v, i) == count_higher(m2, v, i),
    decreases i,
{
    if i > 0 {
        lemma_count_higher_prefix(m1, m2, v, i - 1);
    }
}

/// A position depends only on the metrics up to and including its row.
proof fn lemma_position_at_prefix(m1: Seq<u16>, m2: Seq<u16>, i: int)
    requires
        forall|k: int| 0 <= k <= i ==> m1[k] == m2[k],
    ensures
        position_at(m1, i) == position_at(m2, i),
{
    lemma_count_higher_prefix(m1, m2, m1[i], i);
}

/// Row `m` displays the record of the `m`-th ranked identifier: its
/// player's name, that player's displayed metric, and the competition
/// position among the rows.
pub open spec fn row_ok(
    players: Seq<Player>,
    ids: Seq<String>,
    rows: Seq<(usize, String, u16)>,
    assists: bool,
    m: int,
) -> bool {
    let k = find_id(players, ids[m]@);
    &&& k >= 0
    &&& rows[m].1 == players[k].name
    &&& rows[m].2 == metric_val(players[k], assists)
    &&& rows[m].0 as int == position_at(rows_metrics(rows), m)
}

/// What a sequence of displayed rows must be: one row per ranked
/// identifier, each as [`row_ok`] says.
pub open spec fn row_contract(
    players: Seq<Player>,
    ids: Seq<String>,
    rows: Seq<(usize, String, u16)>,
    assists: bool,
) -> bool {
    &&& rows.len() == ids.len()
    &&& forall|m: int| 0 <= m < rows.len() ==> #[trigger] row_ok(players, ids, rows, assists, m)
}

/// The position of the player carrying `id`, by a scan.
fn find_player(players: &Vec<Player>, id: &String) -> (r: Option<usize>)
    ensures
        match r {
            Option::Some(k) => k < players@.len() && players@[k as int].id@ == id@ && find_id(
                players@,
                id@,
            ) == k,
            Option::None => find_id(players@, id@) == -1,
        },
{
    let n = players.len();
    let mut i: usize = 0;
    while i < n
        invariant
            0 <= i <= n,
            n == players@.len(),
            forall|k: int| 0 <= k < i ==> (#[trigger] players@[k]).id@ != id@,
        decreases n - i,
    {
        if players[i].id == *id {
            proof {
                lemma_find_id_at(players@, id@, i as int);
            }
            return Option::Some(i);
        }
        i = i + 1;
    }
    proof {
        lemma_find_id_at(players@, id@, n as int);
    }
    Option::None
}

/// Build the displayed rows for one ranked view, or `None` when a ranked
/// identifier has no player record.
fn ranked_rows(players: &Vec<Player>, ids: &Vec<String>, assists: bool) -> (r: Option<
    Vec<(usize, String, u16)>,
>)
    ensures
        match r {
            Option::Some(rows) => row_contract(players@, ids@, rows@, assists),
            Option::None => exists|m: int|
                0 <= m < ids@.len() && find_id(players@, (#[trigger] ids@[m])@) == -1,
        },
{
    let n = ids.len();
    let mut rows: Vec<(usize, String, u16)> = Vec::new();
    let mut m: usize = 0;
    while m < n
        invariant
            0 <= m <= n,
            n == ids@.len(),
            rows@.len() == m,
            forall|t: int| 0 <= t < m ==> #[trigger] row_ok(players@, ids@, rows@, assists, t),
        decreases n - m,
    {
        let k: usize = match find_player(players, &ids[m]) {
            Option::Some(k) => k,
            Option::None => {
                return Option::None;
            },
        };
        let p = &players[k];
        let val = if assists {
            p.assists
        } else {
            p.goals_scored
        };
        // Competition position: one more than the number of earlier rows
        // with a strictly greater metric.
        let mut higher: usize = 0;
        let mut j: usize = 0;
        while j < m
            invariant
                0 <= j <= m,
                m == rows@.len(),
                0 <= higher <= j,
                higher as int == count_higher(rows_metrics(rows@), val, j as int),
            decreases m - j,
        {
            if rows[j].2 > val {
                higher = higher + 1;
            }
            j = j + 1;
        }
        let position: usize = higher + 1;
        let ghost old_metrics = rows_metrics(rows@);
        let ghost old_rows = rows@;
        let row = (position, p.name.clone(), val);
        rows.push(row);
        proof {
            let ms = rows_metrics(rows@);
            assert(ms =~= old_metrics.push(val));
            assert forall|t: int| 0 <= t < m implies position_at(ms, t) == position_at(
                old_metrics,
                t,
            ) by {
                lemma_position_at_prefix(ms, old_metrics, t);
            }
            lemma_count_higher_prefix(ms, old_metrics, val, m as int);
            assert(position as int == position_at(ms, m as int));
            assert forall|t: int| 0 <= t <= m implies #[trigger] row_ok(
                players@,
                ids@,
                rows@,
                assists,
                t,
            ) by {
                if t < m {
                    assert(row_ok(players@, ids@, old_rows, assists, t));
                    assert(rows@[t] == old_rows[t]);
                    assert(old_rows[t].0 as int == position_at(old_metrics, t));
                } else {
                    assert(rows@[t] == row);
                    assert(row.1 == players@[k as int].name);
                    assert(find_id(players@, ids@[t]@) == k as int);
                }
            }
        }
        m = m + 1;
    }
    proof {
        assert(row_contract(players@, ids@, rows@, assists));
    }
    Option::Some(rows)
}

/// What adding one player does to the collection: a record carrying an
/// identifier already present is replaced in place, otherwise the record
/// is appended.
pub open spec fn add_player_spec(s: Seq<Player>, p: Player) -> Seq<Player> {
    if find_id(s, p.id@) >= 0 {
        s.update(find_id(s, p.id@), p)
    } else {
        s.push(p)
    }
}

/// A database of players and the two ranked views derived from them.
pub struct PlayerDB {
    pub players: Vec<Player>,
    pub top_scorers: Vec<String>,
    pub top_assists: Vec<String>,
}

impl Default for PlayerDB {
    /// An empty database, as [`PlayerDB::new`] builds it.
    fn default() -> (db: PlayerDB)
        ensures
            db.wf(),
            db.players@ == Seq::<Player>::empty(),
            db.top_scorers@ == Seq::<String>::empty(),
            db.top_assists@ == Seq::<String>::empty(),
    {
        PlayerDB::new()
    }
}

impl PlayerDB {
    /// The database invariant: player identifiers are pairwise distinct.
    pub open spec fn wf(self) -> bool {
        distinct_player_ids(self.players@)
    }

    /// Create an empty database.
    pub fn new() -> (db: PlayerDB)
        ensures
            db.wf(),
            db.players@ == Seq::<Player>::empty(),
            db.top_scorers@ == Seq::<String>::empty(),
            db.top_assists@ == Seq::<String>::empty(),
    {
        let db = PlayerDB { players: Vec::new(), top_scorers: Vec::new(), top_assists: Vec::new() };
        proof {
            assert(db.players@ =~= Seq::<Player>::empty());
            assert(db.top_scorers@ =~= Seq::<String>::empty());
            assert(db.top_assists@ =~= Seq::<String>::empty());
        }
        db
    }

    /// Add a player. A record carrying an identifier already present is
    /// replaced in place: only the most recent observation per identifier
    /// is kept.
    pub fn add_player(&mut self, player: Player)
        requires
            old(self).wf(),
        ensures
            final(self).wf(),
            final(self).top_scorers == old(self).top_scorers,
            final(self).top_assists == old(self).top_assists,
            final(self).players@ == add_player_spec(old(self).players@, player),
    {
        let ghost s = self.players@;
        let n = self.players.len();
        let mut i: usize = 0;
        while i < n
            invariant
                0 <= i <= n,
                n == self.players.len(),
                s == self.players@,
                self == old(self),
                distinct_player_ids(s),
                forall|k: int| 0 <= k < i ==> (#[trigger] s[k]).id@ != player.id@,
            decreases n - i,
        {
            if self.players[i].id == player.id {
                proof {
                    lemma_find_id_at(s, player.id@, i as int);
                }
                self.players.remove(i);
                self.players.insert(i, player);
                proof {
                    s.remove_ensures(i as int);
                    s.remove(i as int).insert_ensures(i as int, player);
                    let r = s.update(i as int, player);
                    assert(self.players@ =~= r);
                    assert(distinct_player_ids(s));
                    assert(r[i as int] == player);
                    assert(player.id@ == s[i as int].id@);
                    assert forall|a: int, b: int| 0 <= a < b < r.len() implies (#[trigger] r[a]).id@
                        != (#[trigger] r[b]).id@ by {
                        if a != i && b != i {
                            assert(r[a] == s[a] && r[b] == s[b]);
                        } else if a == i {
                            assert(r[a].id@ == s[i as int].id@ && r[b] == s[b]);
                        } else {
                            assert(r[b].id@ == s[i as int].id@ && r[a] == s[a]);
                        }
                    }
                }
                return ;
            }
            i = i + 1;
        }
        proof {
            lemma_find_id_at(s, player.id@, n as int);
        }
        self.players.push(player);
        proof {
            let r = s.push(player);
            assert forall|a: int, b: int| 0 <= a < b < r.len() implies (#[trigger] r[a]).id@
                != (#[trigger] r[b]).id@ by {
                if b < r.len() - 1 {
                    assert(r[a] == s[a] && r[b] == s[b]);
                } else {
                    assert(r[a] == s[a]);
                }
            }
        }
    }

    /// The displayed top-scorer rows: competition position, player name
    /// and goals for each ranked identifier, in ranked order. `None`
    /// exactly when some ranked identifier has no player record.
    pub fn top_scorer_rows(&self) -> (r: Option<Vec<(usize, String, u16)>>)
        ensures
            match r {
                Option::Some(rows) => row_contract(
                    self.players@,
                    self.top_scorers@,
                    rows@,
                    false,
                ),
                Option::None => exists|m: int|
                    0 <= m < self.top_scorers@.len() && find_id(
                        self.players@,
                        (#[trigger] self.top_scorers@[m])@,
                    ) == -1,
            },
    {
        ranked_rows(&self.players, &self.top_scorers, false)
    }

    /// The displayed top-assist rows: competition position, player name
    /// and assists for each ranked identifier, in ranked order. `None`
    /// exactly when some ranked identifier has no player record.
    pub fn top_assist_rows(&self) -> (r: Option<Vec<(usize, String, u16)>>)
        ensures
            match r {
                Option::Some(rows) => row_contract(
                    self.players@,
                    self.top_assists@,
                    rows@,
                    true,
                ),
                Option::None => exists|m: int|
                    0 <= m < self.top_assists@.len() && find_id(
                        self.players@,
                        (#[trigger] self.top_assists@[m])@,
                    ) == -1,
            },
    {
        ranked_rows(&self.players, &self.top_assists, true)
    }

    /// Recompute both ranked views from the current collection: goals and
    /// assists, each cut to [`DEFAULT_LIMIT`] with boundary ties kept.
    pub fn index_players(&mut self)
        ensures
            final(self).players == old(self).players,
            final(self).top_scorers.deep_view() == rank_spec(
                goal_entries(old(self).players@),
                DEFAULT_LIMIT as int,
            ),
            final(self).top_assists.deep_view() == rank_spec(
                assist_entries(old(self).players@),
                DEFAULT_LIMIT as int,
            ),
    {
        let ghost s = self.players@;
        let mut goals: Vec<(String, u16)> = Vec::new();
        let mut assists: Vec<(String, u16)> = Vec::new();
        let mut i: usize = 0;
        while i < self.players.len()
            invariant
                0 <= i <= self.players.len(),
                s == self.players@,
                self == old(self),
                goals.len() == i,
                assists.len() == i,
                forall|k: int|
                    0 <= k < i ==> (#[trigger] goals@[k]).0@ == s[k].id@ && goals@[k].1
                        == s[k].goals_scored,
                forall|k: int|
                    0 <= k < i ==> (#[trigger] assists@[k]).0@ == s[k].id@ && assists@[k].1
                        == s[k].assists,
            decreases self.players.len() - i,
        {
            goals.push((self.players[i].id.clone(), self.players[i].goals_scored));
            assists.push((self.players[i].id.clone(), self.players[i].assists));
            i = i + 1;
        }
        proof {
            assert(pairs_view(goals@) =~= goal_entries(s));
            assert(pairs_view(assists@) =~= assist_entries(s));
        }
        self.top_scorers = rank(&goals, DEFAULT_LIMIT);
        self.top_assists = rank(&assists, DEFAULT_LIMIT);
    }
}

} // verus!
