use vstd::prelude::*;
use crate::race::{count_ahead, count_valid, lemma_rank_order, rank_of, rank_taken};
use crate::text::{decimal, with_number};

verus! {

broadcast use vstd::seq_lib::seq_to_set_is_finite;

/// One archived result; the reaction time is in microseconds.
#[derive(Debug)]
pub struct GameRecord {
    pub id: String,
    pub game_id: String,
    pub player_name: String,
    pub score: i32,
    pub reaction_time: Option<u64>,
    pub created_at: String,
}

/// The time stamp every record carries.
pub open spec fn stamp() -> Seq<char> {
    "2024-01-01T00:00:00Z"@
}

/// The identifier of the `n`th record (counting from 1).
pub open spec fn record_id(n: nat) -> Seq<char> {
    "record_"@ + decimal(n)
}

/// Ordering keys under which ascending order is descending score.
pub open spec fn score_keys(rs: Seq<GameRecord>) -> Seq<Option<u64>> {
    rs.map_values(|r: GameRecord| Some((2147483647 - r.score) as u64))
}

/// `rec` is the record in place `p` (from 0) of the ranking by descending score,
/// earlier records first among equal scores.
pub open spec fn ranked_at(rs: Seq<GameRecord>, p: int, rec: GameRecord) -> bool {
    exists|i: int| 0 <= i < rs.len() && #[trigger] rank_of(score_keys(rs), i) == Some(p + 1) && rec == rs[i]
}

/// How many records a query with `limit` returns out of `len`: a negative limit
/// returns all of them.
pub open spec fn limited(limit: i64, len: int) -> int {
    if limit < 0 || limit >= len {
        len
    } else {
        limit as int
    }
}

/// The records of player `name`, in the order they were saved.
pub open spec fn of_player(rs: Seq<GameRecord>, name: Seq<char>) -> Seq<GameRecord> {
    rs.filter(|r: GameRecord| r.player_name@ == name)
}

/// The distinct player names among the records.
pub open spec fn player_names(rs: Seq<GameRecord>) -> Set<Seq<char>> {
    rs.map_values(|r: GameRecord| r.player_name@).to_set()
}

/// An append-only log of game records.
pub struct RecordLog {
    records: Vec<GameRecord>,
}

impl RecordLog {
    /// The records, in the order they were saved.
    pub closed spec fn records(&self) -> Seq<GameRecord> {
        self.records@
    }

    /// Every record carries the common time stamp.
    pub open spec fn wf(&self) -> bool {
        forall|i: int| 0 <= i < self.records().len() ==> (#[trigger] self.records()[i]).created_at@ == stamp()
    }

    /// An empty log.
    pub fn new() -> (r: Self)
        ensures
            r.wf(),
            r.records().len() == 0,
    {
        RecordLog { records: Vec::new() }
    }

    /// The number of records.
    pub fn len(&self) -> (r: usize)
        ensures
            r == self.records().len(),
    {
        self.records.len()
    }

    /// Appends a record, numbered after the ones already there.
    pub fn save_game_record(
        &mut self,
        game_id: &str,
        player_name: &str,
        score: i32,
        reaction_time: Option<u64>,
    )
        requires
            old(self).wf(),
            old(self).records().len() < u64::MAX,
        ensures
            final(self).wf(),
            final(self).records().drop_last() == old(self).records(),
            final(self).records().len() == old(self).records().len() + 1,
            ({
                let r = final(self).records().last();
                &&& r.id@ == record_id(old(self).records().len() + 1)
                &&& r.game_id@ == game_id@
                &&& r.player_name@ == player_name@
                &&& r.score == score
                &&& r.reaction_time == reaction_time
                &&& r.created_at@ == stamp()
            }),
    {
        proof {
            reveal_strlit("record_");
            reveal_strlit("2024-01-01T00:00:00Z");
        }
        let n = self.records.len() as u64 + 1;
        let record = GameRecord {
            id: with_number("record_", n),
            game_id: game_id.to_owned(),
            player_name: player_name.to_owned(),
            score,
            reaction_time,
            created_at: "2024-01-01T00:00:00Z".to_owned(),
        };
        self.records.push(record);
        assert(self.records@.drop_last() =~= old(self).records@);
    }

    /// The best records first: by descending score, earlier records first among equal
    /// scores, at most `limit` of them (all for a negative `limit`).
    pub fn get_leaderboard(&self, limit: i64) -> (r: Vec<GameRecord>)
        ensures
            r@.len() == limited(limit, self.records().len() as int),
            forall|p: int| 0 <= p < r@.len() ==> ranked_at(self.records(), p, #[trigger] r@[p]),
    {
        let n = self.records.len();
        let ghost keys = score_keys(self.records@);
        // the place of each record in the ranking, from 0
        let mut place: Vec<usize> = Vec::new();
        let mut i: usize = 0;
        while i < n
            invariant
                n == self.records@.len(),
                keys == score_keys(self.records@),
                i <= n,
                place@.len() == i,
                forall|j: int| 0 <= j < i ==> rank_of(keys, j) == Some(#[trigger] place@[j] + 1),
            decreases n - i,
        {
            let key_i = (2147483647 - self.records[i].score as i64) as u64;
            let mut ahead_count: usize = 0;
            let mut j: usize = 0;
            while j < n
                invariant
                    n == self.records@.len(),
                    keys == score_keys(self.records@),
                    i < n,
                    j <= n,
                    keys[i as int] == Some(key_i),
                    ahead_count == count_ahead(keys, i as int, j as int),
                    ahead_count <= j,
                decreases n - j,
            {
                let key_j = (2147483647 - self.records[j].score as i64) as u64;
                if key_j < key_i || (key_j == key_i && j < i) {
                    ahead_count = ahead_count + 1;
                }
                j = j + 1;
            }
            place.push(ahead_count);
            i = i + 1;
        }
        proof {
            lemma_rank_order(keys);
            lemma_keys_all_present(self.records@);
        }
        let count: usize = if limit < 0 || limit as u64 >= n as u64 {
            n
        } else {
            limit as usize
        };
        let mut r: Vec<GameRecord> = Vec::new();
        let ghost mut picks: Seq<int> = Seq::empty();
        let mut p: usize = 0;
        while p < count
            invariant
                n == self.records@.len(),
                keys == score_keys(self.records@),
                count <= n,
                count == limited(limit, n as int),
                place@.len() == n,
                forall|j: int| 0 <= j < n ==> rank_of(keys, j) == Some(#[trigger] place@[j] + 1),
                forall|q: int| 1 <= q <= n ==> #[trigger] rank_taken(keys, q),
                p <= count,
                r@.len() == p,
                picks.len() == p,
                forall|q: int|
                    0 <= q < p ==> 0 <= #[trigger] picks[q] < n && rank_of(keys, picks[q]) == Some(q + 1)
                        && r@[q] == self.records@[picks[q]],
            decreases count - p,
        {
            let mut i: usize = 0;
            while i < n && place[i] != p
                invariant
                    n == place@.len(),
                    i <= n,
                    forall|j: int| 0 <= j < i ==> place@[j] != p,
                decreases n - i,
            {
                i = i + 1;
            }
            if i == n {
                proof {
                    assert(rank_taken(keys, p + 1));
                    let w = choose|w: int| 0 <= w < keys.len() && #[trigger] rank_of(keys, w) == Some(p + 1);
                    assert(place@[w] == p);
                }
            }
            let found = &self.records[i];
            r.push(copy_record(found));
            proof {
                picks = picks.push(i as int);
            }
            p = p + 1;
        }
        assert forall|q: int| 0 <= q < r@.len() implies ranked_at(self.records(), q, #[trigger] r@[q]) by {
            assert(self.records() == self.records@);
            let w = picks[q];
            assert(0 <= w < self.records().len());
            assert(rank_of(score_keys(self.records()), w) == Some(q + 1));
            assert(r@[q] == self.records()[w]);
        }
        r
    }

    /// The records of player `player_name`, newest first, at most `limit` of them
    /// (all for a negative `limit`). Records share one time stamp, so they come in
    /// the order they were saved.
    pub fn get_player_history(&self, player_name: &str, limit: i64) -> (r: Vec<GameRecord>)
        requires
            self.wf(),
        ensures
            r@ == of_player(self.records(), player_name@).take(
                limited(limit, of_player(self.records(), player_name@).len() as int),
            ),
    {
        let key = player_name.to_owned();
        let ghost all = self.records@;
        let mut found: Vec<GameRecord> = Vec::new();
        let mut i: usize = 0;
        while i < self.records.len()
            invariant
                all == self.records@,
                key@ == player_name@,
                i <= all.len(),
                found@ == of_player(all.take(i as int), player_name@),
            decreases all.len() - i,
        {
            let rec = &self.records[i];
            proof {
                assert(all.take(i + 1) =~= all.take(i as int).push(all[i as int]));
                all.take(i as int).lemma_filter_push(
                    all[i as int],
                    |r: GameRecord| r.player_name@ == player_name@,
                );
            }
            if rec.player_name == key {
                found.push(copy_record(rec));
            }
            i = i + 1;
        }
        assert(all.take(all.len() as int) =~= all);
        let total = found.len();
        let count: usize = if limit < 0 || limit as u64 >= total as u64 {
            total
        } else {
            limit as usize
        };
        found.truncate(count);
        assert(found@ =~= of_player(all, player_name@).take(count as int));
        found
    }

    /// The number of records and the number of distinct player names among them.
    pub fn get_stats(&self) -> (r: (u64, u64))
        ensures
            r.0 == self.records().len(),
            r.1 == player_names(self.records()).len(),
    {
        let ghost names = self.records@.map_values(|r: GameRecord| r.player_name@);
        let mut unique: u64 = 0;
        let mut i: usize = 0;
        assert(names.take(0).to_set() =~= Set::<Seq<char>>::empty());
        while i < self.records.len()
            invariant
                names == self.records@.map_values(|r: GameRecord| r.player_name@),
                i <= self.records@.len(),
                unique == names.take(i as int).to_set().len(),
                unique <= i,
            decreases self.records@.len() - i,
        {
            let mut seen = false;
            let mut j: usize = 0;
            while j < i
                invariant
                    names == self.records@.map_values(|r: GameRecord| r.player_name@),
                    i < self.records@.len(),
                    j <= i,
                    seen == exists|k: int| 0 <= k < j && names[k] == names[i as int],
                decreases i - j,
            {
                assert(names[j as int] == self.records@[j as int].player_name@);
                assert(names[i as int] == self.records@[i as int].player_name@);
                if self.records[j].player_name == self.records[i].player_name {
                    seen = true;
                }
                j = j + 1;
            }
            proof {
                let before = names.take(i as int);
                assert(names.take(i + 1) =~= before + seq![names[i as int]]);
                Seq::<Seq<char>>::lemma_to_set_insert_commutes(before, names[i as int]);
                if seen {
                    let k = choose|k: int| 0 <= k < i && names[k] == names[i as int];
                    assert(before[k] == names[i as int]);
                    assert(before.to_set().contains(names[i as int]));
                    assert(before.to_set().insert(names[i as int]) =~= before.to_set());
                } else {
                    assert(!before.to_set().contains(names[i as int])) by {
                        if before.to_set().contains(names[i as int]) {
                            let k = choose|k: int| 0 <= k < before.len() && before[k] == names[i as int];
                            assert(names[k] == names[i as int]);
                        }
                    }
                }
            }
            if !seen {
                unique = unique + 1;
            }
            i = i + 1;
        }
        assert(names.take(names.len() as int) =~= names);
        (self.records.len() as u64, unique)
    }
}

/// Every record has an ordering key.
proof fn lemma_keys_all_present(rs: Seq<GameRecord>)
    ensures
        forall|i: int| 0 <= i < rs.len() ==> (#[trigger] score_keys(rs)[i]) is Some,
        count_valid(score_keys(rs), rs.len() as int) == rs.len(),
{
    lemma_count_all(score_keys(rs), rs.len() as int);
}

proof fn lemma_count_all(times: Seq<Option<u64>>, m: int)
    requires
        0 <= m <= times.len(),
        forall|i: int| 0 <= i < m ==> (#[trigger] times[i]) is Some,
    ensures
        count_valid(times, m) == m,
    decreases m,
{
    if m > 0 {
        lemma_count_all(times, m - 1);
    }
}

/// A field-by-field copy of a record.
fn copy_record(r: &GameRecord) -> (c: GameRecord)
    ensures
        c == *r,
{
    GameRecord {
        id: r.id.clone(),
        game_id: r.game_id.clone(),
        player_name: r.player_name.clone(),
        score: r.score,
        reaction_time: r.reaction_time,
        created_at: r.created_at.clone(),
    }
}

} // verus!
