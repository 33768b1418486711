use vstd::prelude::*;
use std::time::Instant;
use crate::text::{decimal, with_number};
use vstd::relations::injective_on;
use vstd::set_lib::{lemma_int_range, lemma_map_size, lemma_subset_equality, set_int_range};

verus! {

/// Reactions faster than this (in microseconds) are false starts.
pub const FALSE_START_LIMIT: u64 = 100_000;

/// The phases of a race room.
#[derive(Debug, Clone, Copy, PartialEq, Eq, Structural)]
pub enum GameState {
    Waiting,
    Countdown,
    Ready,
    Racing,
    Finished,
    GameOver,
}

/// Why an operation on a room was refused.
#[derive(Debug, Clone, Copy, PartialEq, Eq, Structural)]
pub enum RaceError {
    RoomNotFound,
    InvalidState,
    UnknownPlayer,
    DuplicateReaction,
}

/// The description of each error.
pub open spec fn error_text(e: RaceError) -> Seq<char> {
    match e {
        RaceError::RoomNotFound => "room not found"@,
        RaceError::InvalidState => "the room is not racing"@,
        RaceError::UnknownPlayer => "no such player in this room"@,
        RaceError::DuplicateReaction => "this player has already reacted"@,
    }
}

impl RaceError {
    /// A short human-readable description of the error.
    pub fn message(&self) -> (r: String)
        ensures
            r@ == error_text(*self),
            r@.len() > 0,
    {
        let text = match self {
            RaceError::RoomNotFound => "room not found",
            RaceError::InvalidState => "the room is not racing",
            RaceError::UnknownPlayer => "no such player in this room",
            RaceError::DuplicateReaction => "this player has already reacted",
        };
        proof {
            reveal_strlit("room not found");
            reveal_strlit("the room is not racing");
            reveal_strlit("no such player in this room");
            reveal_strlit("this player has already reacted");
        }
        text.to_owned()
    }
}

/// A seat in a room.
#[derive(Debug)]
pub struct Player {
    pub id: u8,
    pub name: String,
    pub score: i32,
    pub key: String,
    pub is_ready: bool,
}

/// One player's outcome in one round. Reaction times are in microseconds.
#[derive(Debug, Clone, Copy, PartialEq, Eq, Structural)]
pub struct PlayerRoundResult {
    pub player_id: u8,
    pub reaction_time: Option<u64>,
    pub is_false_start: bool,
    pub rank: Option<u8>,
    pub points: i32,
}

/// The outcome of a completed round, one entry per player in seat order.
#[derive(Debug)]
pub struct RoundResult {
    pub round: u8,
    pub player_results: Vec<PlayerRoundResult>,
}

/// Declared so that rooms can remember when the start signal fired.
#[verifier::external_type_specification]
#[verifier::external_body]
pub struct ExInstant(Instant);

/// Relies on `Instant::now`: reads the monotonic clock; nothing is claimed of the value.
#[verifier::external_body]
fn clock_now() -> Instant {
    Instant::now()
}

/// A race room: players, the current phase, and the history of rounds.
#[derive(Debug)]
pub struct RacingGame {
    pub game_id: String,
    pub game_state: GameState,
    pub players: Vec<Player>,
    pub current_round: u8,
    pub max_rounds: u8,
    pub round_results: Vec<RoundResult>,
    pub green_light_time: Option<Instant>,
    pub reacted_players: Vec<u8>,
    /// `(player id, reaction time)` in the order the reactions arrived.
    pub player_reactions: Vec<(u8, u64)>,
}

/// The identifier of the room drawn with number `n`.
pub open spec fn room_id_text(n: u32) -> Seq<char> {
    seq!['g', 'a', 'm', 'e', '_'] + decimal(n as nat)
}

/// The name given to seat `i` when none was supplied.
pub open spec fn default_name(i: u8) -> Seq<char> {
    seq!['玩', '家'] + decimal(i as nat)
}

/// The key shown for seat `i`.
pub open spec fn key_for(i: u8) -> Seq<char> {
    if i == 2 {
        seq!['E', 'n', 't', 'e', 'r']
    } else if i == 3 {
        seq!['a']
    } else if i == 4 {
        seq!['l']
    } else {
        seq![' ']
    }
}

/// The recorded reaction of player `id`: the first entry with that id.
pub open spec fn lookup(rs: Seq<(u8, u64)>, id: u8) -> Option<u64>
    decreases rs.len(),
{
    if rs.len() == 0 {
        None
    } else if rs[0].0 == id {
        Some(rs[0].1)
    } else {
        lookup(rs.subrange(1, rs.len() as int), id)
    }
}

/// A reaction below the threshold is a false start.
pub open spec fn is_false_start(t: u64) -> bool {
    t < FALSE_START_LIMIT
}

/// Points for a valid reaction time, by band of 100 ms.
pub open spec fn band_points(t: u64) -> int {
    if t < 200_000 {
        15
    } else if t < 300_000 {
        12
    } else if t < 400_000 {
        10
    } else if t < 500_000 {
        8
    } else {
        5
    }
}

/// Points before the rank bonus: -5 for a false start, 0 for no reaction.
pub open spec fn base_points(reaction: Option<u64>) -> int {
    match reaction {
        Some(t) => if is_false_start(t) {
            -5
        } else {
            band_points(t)
        },
        None => 0,
    }
}

/// The reaction time that counts: present and not a false start.
pub open spec fn valid_time(reaction: Option<u64>) -> Option<u64> {
    match reaction {
        Some(t) => if is_false_start(t) {
            None
        } else {
            Some(t)
        },
        None => None,
    }
}

/// The counting reaction time of each seat.
pub open spec fn valid_times(players: Seq<Player>, rs: Seq<(u8, u64)>) -> Seq<Option<u64>> {
    players.map_values(|p: Player| valid_time(lookup(rs, p.id)))
}

/// Seat `j` finishes ahead of seat `i`: faster, or as fast and seated earlier.
pub open spec fn ahead(times: Seq<Option<u64>>, j: int, i: int) -> bool {
    &&& times[j] is Some
    &&& times[i] is Some
    &&& (times[j]->0 < times[i]->0 || (times[j]->0 == times[i]->0 && j < i))
}

/// How many of the seats `0..m` finish ahead of seat `i`.
pub open spec fn count_ahead(times: Seq<Option<u64>>, i: int, m: int) -> nat
    decreases m,
{
    if m <= 0 {
        0
    } else {
        count_ahead(times, i, m - 1) + if ahead(times, m - 1, i) {
            1nat
        } else {
            0nat
        }
    }
}

/// The rank of seat `i`, for seats with a counting time.
pub open spec fn rank_of(times: Seq<Option<u64>>, i: int) -> Option<int> {
    if times[i] is Some {
        Some((count_ahead(times, i, times.len() as int) + 1) as int)
    } else {
        None
    }
}

/// Extra points for a rank: 10, 7 and 5 for the first three, 3 for the rest.
pub open spec fn rank_bonus(rank: int) -> int {
    if rank == 1 {
        10
    } else if rank == 2 {
        7
    } else if rank == 3 {
        5
    } else {
        3
    }
}

/// The scored result of seat `k` given the reactions of the round.
pub open spec fn scored(players: Seq<Player>, rs: Seq<(u8, u64)>, k: int) -> PlayerRoundResult {
    let reaction = lookup(rs, players[k].id);
    let times = valid_times(players, rs);
    let rank = rank_of(times, k);
    PlayerRoundResult {
        player_id: players[k].id,
        reaction_time: times[k],
        is_false_start: reaction is Some && is_false_start(reaction->0),
        rank: match rank {
            Some(r) => Some(r as u8),
            None => None,
        },
        points: (base_points(reaction) + match rank {
            Some(r) => rank_bonus(r),
            None => 0,
        }) as i32,
    }
}

/// A round's results are one per seat, in seat order, with points in the possible range.
pub open spec fn round_ok(r: RoundResult, n: int) -> bool {
    &&& r.player_results@.len() == n
    &&& forall|k: int|
        0 <= k < n ==> {
            &&& (#[trigger] r.player_results@[k]).player_id == k + 1
            &&& -5 <= r.player_results@[k].points <= 25
        }
}

/// Points of seat `k` summed over the rounds `h`.
pub open spec fn total_points(h: Seq<RoundResult>, k: int) -> int
    decreases h.len(),
{
    if h.len() == 0 {
        0
    } else {
        total_points(h.drop_last(), k) + h.last().player_results@[k].points
    }
}

impl RacingGame {
    /// The room's invariant.
    pub open spec fn wf(&self) -> bool {
        let n = self.players@.len();
        &&& n <= 255
        &&& forall|k: int| 0 <= k < n ==> (#[trigger] self.players@[k]).id == k + 1
        &&& self.round_results@.len() == self.current_round
        &&& forall|r: int|
            0 <= r < self.round_results@.len() ==> round_ok(
                #[trigger] self.round_results@[r],
                n as int,
            )
        &&& forall|k: int|
            0 <= k < n ==> (#[trigger] self.players@[k]).score == total_points(
                self.round_results@,
                k,
            )
        &&& self.player_reactions@.len() == self.reacted_players@.len()
        &&& forall|i: int|
            0 <= i < self.reacted_players@.len() ==> (#[trigger] self.player_reactions@[i]).0
                == self.reacted_players@[i]
        &&& forall|i: int|
            0 <= i < self.reacted_players@.len() ==> 1 <= #[trigger] self.reacted_players@[i]
                <= n
        &&& forall|i: int, j: int|
            0 <= i < j < self.reacted_players@.len() ==> self.reacted_players@[i]
                != self.reacted_players@[j]
    }

    /// Seat `id` exists in this room.
    pub open spec fn has_player(&self, id: u8) -> bool {
        1 <= id <= self.players@.len()
    }
}

/// Relies on `rand::random` (rand 0.8): a value drawn from the thread-local generator.
pub assume_specification<T>[ rand::random::<T> ]() -> (r: T)
    where
        rand::distributions::Standard: rand::distributions::Distribution<T>,
;

/// `next` is `prev` after its round was scored into `r`.
pub open spec fn finished(prev: RacingGame, next: RacingGame, r: RoundResult) -> bool {
    &&& r.round == prev.current_round + 1
    &&& r.player_results@.len() == prev.players@.len()
    &&& forall|k: int|
        0 <= k < prev.players@.len() ==> #[trigger] r.player_results@[k] == scored(
            prev.players@,
            prev.player_reactions@,
            k,
        )
    &&& next.players@.len() == prev.players@.len()
    &&& forall|k: int|
        0 <= k < prev.players@.len() ==> {
            let p = #[trigger] next.players@[k];
            let q = prev.players@[k];
            &&& p.score == q.score + r.player_results@[k].points
            &&& p.id == q.id
            &&& p.name == q.name
            &&& p.key == q.key
            &&& p.is_ready == q.is_ready
        }
    &&& next.round_results@.len() == prev.round_results@.len() + 1
    &&& next.round_results@.drop_last() == prev.round_results@
    &&& next.round_results@.last().round == r.round
    &&& next.round_results@.last().player_results@ == r.player_results@
    &&& next.current_round == prev.current_round + 1
    &&& next.game_state == if next.current_round >= prev.max_rounds {
        GameState::GameOver
    } else {
        GameState::Waiting
    }
    &&& next.game_id == prev.game_id
    &&& next.max_rounds == prev.max_rounds
    &&& next.green_light_time == prev.green_light_time
    &&& next.reacted_players == prev.reacted_players
    &&& next.player_reactions == prev.player_reactions
}

/// `next` is `prev` after `player_id` reported `reaction_time`, answered with `r`:
/// refused outside the Racing phase, for an unknown seat, or for a second reaction
/// of the round, and then nothing changes.
pub open spec fn reaction_taken(
    prev: RacingGame,
    next: RacingGame,
    player_id: u8,
    reaction_time: u64,
    r: Result<PlayerRoundResult, RaceError>,
) -> bool {
    &&& prev.game_state != GameState::Racing ==> r == Err::<PlayerRoundResult, RaceError>(
        RaceError::InvalidState,
    )
    &&& prev.game_state == GameState::Racing && !prev.has_player(player_id) ==> r == Err::<
        PlayerRoundResult,
        RaceError,
    >(RaceError::UnknownPlayer)
    &&& prev.game_state == GameState::Racing && prev.has_player(player_id)
        && prev.reacted_players@.contains(player_id) ==> r == Err::<PlayerRoundResult, RaceError>(
        RaceError::DuplicateReaction,
    )
    &&& r is Err ==> next == prev
    &&& prev.game_state == GameState::Racing && prev.has_player(player_id)
        && !prev.reacted_players@.contains(player_id) ==> {
        &&& r == Ok::<PlayerRoundResult, RaceError>(
            PlayerRoundResult {
                player_id,
                reaction_time: valid_time(Some(reaction_time)),
                is_false_start: is_false_start(reaction_time),
                rank: None,
                points: 0,
            },
        )
        &&& next.reacted_players@ == prev.reacted_players@.push(player_id)
        &&& next.player_reactions@ == prev.player_reactions@.push(
            (player_id, reaction_time),
        )
        &&& next.game_id == prev.game_id
        &&& next.game_state == prev.game_state
        &&& next.players == prev.players
        &&& next.current_round == prev.current_round
        &&& next.max_rounds == prev.max_rounds
        &&& next.round_results == prev.round_results
        &&& next.green_light_time == prev.green_light_time
    }
}

/// `next` is `prev` after the start signal.
pub open spec fn triggered(prev: RacingGame, next: RacingGame) -> bool {
    &&& next.game_state == GameState::Racing
    &&& next.green_light_time is Some
    &&& next.game_id == prev.game_id
    &&& next.players == prev.players
    &&& next.current_round == prev.current_round
    &&& next.max_rounds == prev.max_rounds
    &&& next.round_results == prev.round_results
    &&& next.reacted_players == prev.reacted_players
    &&& next.player_reactions == prev.player_reactions
}

/// `next` is `prev` after a new round began.
pub open spec fn started(prev: RacingGame, next: RacingGame) -> bool {
    &&& next.game_state == GameState::Countdown
    &&& next.green_light_time is None
    &&& next.reacted_players@.len() == 0
    &&& next.player_reactions@.len() == 0
    &&& next.game_id == prev.game_id
    &&& next.players == prev.players
    &&& next.current_round == prev.current_round
    &&& next.max_rounds == prev.max_rounds
    &&& next.round_results == prev.round_results
}

impl RacingGame {
    /// `self` is the room that `new_numbered(n, player_count, round_count, names)` opens.
    pub open spec fn is_opened(
        &self,
        n: u32,
        player_count: u8,
        round_count: u8,
        names: Seq<String>,
    ) -> bool {
        &&& self.game_id@ == room_id_text(n)
        &&& self.game_state == GameState::Waiting
        &&& self.players@.len() == player_count
        &&& forall|k: int|
            0 <= k < player_count ==> {
                let p = #[trigger] self.players@[k];
                &&& p.id == k + 1
                &&& p.name@ == if k < names.len() {
                    names[k]@
                } else {
                    default_name((k + 1) as u8)
                }
                &&& p.score == 0
                &&& p.key@ == key_for((k + 1) as u8)
                &&& !p.is_ready
            }
        &&& self.current_round == 0
        &&& self.max_rounds == round_count
        &&& self.round_results@.len() == 0
        &&& self.green_light_time is None
        &&& self.reacted_players@.len() == 0
        &&& self.player_reactions@.len() == 0
    }

    /// Opens a room in the Waiting phase with a randomly numbered identifier.
    pub fn new(player_count: u8, round_count: u8, player_names: Vec<String>) -> (r: Self)
        ensures
            r.wf(),
            exists|n: u32| r.is_opened(n, player_count, round_count, player_names@),
    {
        let n: u32 = rand::random::<u32>();
        Self::new_numbered(n, player_count, round_count, player_names)
    }

    /// Opens a room with identifier `game_<n>` and seats `1..=player_count`; seats
    /// beyond the supplied names get a generated one.
    pub fn new_numbered(n: u32, player_count: u8, round_count: u8, player_names: Vec<String>) -> (r: Self)
        ensures
            r.wf(),
            r.is_opened(n, player_count, round_count, player_names@),
    {
        let mut players: Vec<Player> = Vec::new();
        let mut k: usize = 0;
        while k < player_count as usize
            invariant
                k <= player_count,
                players@.len() == k,
                forall|j: int|
                    0 <= j < k ==> {
                        let p = #[trigger] players@[j];
                        &&& p.id == j + 1
                        &&& p.name@ == if j < player_names@.len() {
                            player_names@[j]@
                        } else {
                            default_name((j + 1) as u8)
                        }
                        &&& p.score == 0
                        &&& p.key@ == key_for((j + 1) as u8)
                        &&& !p.is_ready
                    },
            decreases player_count - k,
        {
            let id: u8 = (k + 1) as u8;
            let name = if k < player_names.len() {
                player_names[k].clone()
            } else {
                proof {
                    reveal_strlit("玩家");
                    assert("玩家"@ =~= seq!['玩', '家']);
                }
                with_number("玩家", id as u64)
            };
            let key_text = match id {
                2 => "Enter",
                3 => "a",
                4 => "l",
                _ => " ",
            };
            proof {
                reveal_strlit("Enter");
                reveal_strlit("a");
                reveal_strlit("l");
                reveal_strlit(" ");
                assert(key_text@ =~= key_for(id));
            }
            players.push(Player { id, name, score: 0, key: key_text.to_owned(), is_ready: false });
            k = k + 1;
        }
        let game_id = with_number("game_", n as u64);
        proof {
            reveal_strlit("game_");
            assert("game_"@ =~= seq!['g', 'a', 'm', 'e', '_']);
        }
        RacingGame {
            game_id,
            game_state: GameState::Waiting,
            players,
            current_round: 0,
            max_rounds: round_count,
            round_results: Vec::new(),
            green_light_time: None,
            reacted_players: Vec::new(),
            player_reactions: Vec::new(),
        }
    }

    /// Enters the countdown and forgets the signal time and the reactions of the round.
    pub fn start_round(&mut self)
        requires
            old(self).wf(),
        ensures
            final(self).wf(),
            started(*old(self), *final(self)),
    {
        self.game_state = GameState::Countdown;
        self.green_light_time = None;
        self.reacted_players.clear();
        self.player_reactions.clear();
    }

    /// Fires the start signal: the room starts accepting reactions.
    pub fn trigger_green_light(&mut self)
        requires
            old(self).wf(),
        ensures
            final(self).wf(),
            triggered(*old(self), *final(self)),
    {
        self.game_state = GameState::Racing;
        self.green_light_time = Some(clock_now());
    }

    /// Whether `id` has already reacted in this round.
    fn has_reacted(&self, id: u8) -> (r: bool)
        ensures
            r == self.reacted_players@.contains(id),
    {
        let mut i: usize = 0;
        while i < self.reacted_players.len()
            invariant
                i <= self.reacted_players@.len(),
                forall|j: int| 0 <= j < i ==> self.reacted_players@[j] != id,
            decreases self.reacted_players@.len() - i,
        {
            if self.reacted_players[i] == id {
                return true;
            }
            i = i + 1;
        }
        false
    }

    /// Records the reaction time (in microseconds) reported by `player_id`.
    ///
    /// Accepted only while racing, for a seat of this room that has not reacted yet;
    /// a refused call changes nothing. The answer is an acknowledgement: the rank
    /// and the points are settled when the round finishes.
    pub fn record_reaction(&mut self, player_id: u8, reaction_time: u64) -> (r: Result<
        PlayerRoundResult,
        RaceError,
    >)
        requires
            old(self).wf(),
        ensures
            final(self).wf(),
            reaction_taken(*old(self), *final(self), player_id, reaction_time, r),
    {
        if self.game_state != GameState::Racing {
            return Err(RaceError::InvalidState);
        }
        if player_id < 1 || player_id as usize > self.players.len() {
            return Err(RaceError::UnknownPlayer);
        }
        if self.has_reacted(player_id) {
            return Err(RaceError::DuplicateReaction);
        }
        let false_start = reaction_time < FALSE_START_LIMIT;
        self.reacted_players.push(player_id);
        self.player_reactions.push((player_id, reaction_time));
        Ok(
            PlayerRoundResult {
                player_id,
                reaction_time: if false_start {
                    None
                } else {
                    Some(reaction_time)
                },
                is_false_start: false_start,
                rank: None,
                points: 0,
            },
        )
    }

    /// Scores the round: every seat gets a result, ranks go to the counting reactions
    /// by time (seat order breaks ties), points are added to the scores, and the round
    /// is appended to the history. The room then waits for the next round, or is over
    /// once `max_rounds` rounds have been played.
    pub fn finish_round(&mut self) -> (r: RoundResult)
        requires
            old(self).wf(),
            old(self).current_round < 255,
        ensures
            final(self).wf(),
            finished(*old(self), *final(self), r),
    {
        self.game_state = GameState::Finished;
        self.current_round = self.current_round + 1;
        let n = self.players.len();
        let ghost players = self.players@;
        let ghost rs = self.player_reactions@;

        // the raw reaction and the counting time of each seat
        let mut raw: Vec<Option<u64>> = Vec::new();
        let mut times: Vec<Option<u64>> = Vec::new();
        let mut k: usize = 0;
        while k < n
            invariant
                n == players.len(),
                self.players@ == players,
                self.player_reactions@ == rs,
                k <= n,
                raw@.len() == k,
                times@.len() == k,
                forall|j: int|
                    0 <= j < k ==> #[trigger] raw@[j] == lookup(rs, players[j].id),
                forall|j: int| 0 <= j < k ==> #[trigger] times@[j] == valid_time(raw@[j]),
            decreases n - k,
        {
            let reaction = find_reaction(&self.player_reactions, self.players[k].id);
            raw.push(reaction);
            times.push(
                match reaction {
                    Some(t) => if t < FALSE_START_LIMIT {
                        None
                    } else {
                        Some(t)
                    },
                    None => None,
                },
            );
            k = k + 1;
        }
        assert(times@ =~= valid_times(players, rs));

        // rank and points of each seat
        let mut results: Vec<PlayerRoundResult> = Vec::new();
        let mut k: usize = 0;
        while k < n
            invariant
                n == players.len(),
                n <= 255,
                forall|j: int| 0 <= j < n ==> (#[trigger] players[j]).id == j + 1,
                k <= n,
                raw@.len() == n,
                times@.len() == n,
                forall|j: int| 0 <= j < n ==> #[trigger] raw@[j] == lookup(rs, players[j].id),
                times@ == valid_times(players, rs),
                self.players@ == players,
                results@.len() == k,
                forall|j: int| 0 <= j < k ==> #[trigger] results@[j] == scored(players, rs, j),
            decreases n - k,
        {
            let rank: Option<u8> = match times[k] {
                Some(t) => {
                    let mut ahead_count: usize = 0;
                    let mut j: usize = 0;
                    while j < n
                        invariant
                            k < n,
                            times@.len() == n,
                            times@[k as int] == Some(t),
                            j <= n,
                            ahead_count == count_ahead(times@, k as int, j as int),
                            ahead_count + (if j > k {
                                1int
                            } else {
                                0int
                            }) <= j,
                        decreases n - j,
                    {
                        let is_ahead = match times[j] {
                            Some(u) => u < t || (u == t && j < k),
                            None => false,
                        };
                        if is_ahead {
                            ahead_count = ahead_count + 1;
                        }
                        j = j + 1;
                    }
                    Some((ahead_count + 1) as u8)
                },
                None => None,
            };
            let base: i32 = match raw[k] {
                Some(t) => if t < FALSE_START_LIMIT {
                    -5
                } else if t < 200_000 {
                    15
                } else if t < 300_000 {
                    12
                } else if t < 400_000 {
                    10
                } else if t < 500_000 {
                    8
                } else {
                    5
                },
                None => 0,
            };
            let bonus: i32 = match rank {
                Some(1) => 10,
                Some(2) => 7,
                Some(3) => 5,
                Some(_) => 3,
                None => 0,
            };
            let false_start = match raw[k] {
                Some(t) => t < FALSE_START_LIMIT,
                None => false,
            };
            results.push(
                PlayerRoundResult {
                    player_id: self.players[k].id,
                    reaction_time: times[k],
                    is_false_start: false_start,
                    rank,
                    points: base + bonus,
                },
            );
            k = k + 1;
        }

        // add the points to the scores
        let ghost history = self.round_results@;
        let mut k: usize = 0;
        while k < n
            invariant
                n == players.len(),
                k <= n,
                self.players@.len() == n,
                results@.len() == n,
                self.round_results@ == history,
                self.current_round == old(self).current_round + 1,
                self.max_rounds == old(self).max_rounds,
                self.game_id == old(self).game_id,
                self.green_light_time == old(self).green_light_time,
                self.reacted_players == old(self).reacted_players,
                self.player_reactions == old(self).player_reactions,
                forall|r: int| 0 <= r < history.len() ==> round_ok(#[trigger] history[r], n as int),
                history.len() < 255,
                forall|j: int| 0 <= j < n ==> #[trigger] results@[j] == scored(players, rs, j),
                forall|j: int|
                    0 <= j < n ==> {
                        let p = #[trigger] self.players@[j];
                        let q = players[j];
                        &&& p.score == if j < k {
                            q.score + results@[j].points
                        } else {
                            q.score as int
                        }
                        &&& p.id == q.id
                        &&& p.name == q.name
                        &&& p.key == q.key
                        &&& p.is_ready == q.is_ready
                    },
                forall|j: int| 0 <= j < n ==> (#[trigger] players[j]).score == total_points(history, j),
            decreases n - k,
        {
            proof {
                lemma_total_points_bounds(history, n as int, k as int);
            }
            let add = results[k].points;
            self.players[k].score = self.players[k].score + add;
            k = k + 1;
        }

        let copy = copy_results(&results);
        let round = self.current_round;
        self.round_results.push(RoundResult { round, player_results: results });
        proof {
            let h = self.round_results@;
            assert(h.drop_last() =~= history);
            assert forall|j: int| 0 <= j < n implies (#[trigger] self.players@[j]).score
                == total_points(h, j) by {
                assert(h.drop_last() =~= history);
            }
            assert forall|r: int| 0 <= r < h.len() implies round_ok(#[trigger] h[r], n as int) by {
                if r < history.len() {
                    assert(h[r] == history[r]);
                }
            }
        }
        if self.current_round >= self.max_rounds {
            self.game_state = GameState::GameOver;
        } else {
            self.game_state = GameState::Waiting;
        }
        RoundResult { round, player_results: copy }
    }
}

/// The reaction recorded for `id`, if any.
fn find_reaction(rs: &Vec<(u8, u64)>, id: u8) -> (r: Option<u64>)
    ensures
        r == lookup(rs@, id),
{
    let mut i: usize = 0;
    assert(rs@.subrange(0, rs@.len() as int) =~= rs@);
    while i < rs.len()
        invariant
            i <= rs@.len(),
            lookup(rs@, id) == lookup(rs@.subrange(i as int, rs@.len() as int), id),
        decreases rs@.len() - i,
    {
        let ghost rest = rs@.subrange(i as int, rs@.len() as int);
        assert(rest.subrange(1, rest.len() as int) =~= rs@.subrange(i + 1, rs@.len() as int));
        if rs[i].0 == id {
            return Some(rs[i].1);
        }
        i = i + 1;
    }
    None
}

/// An element-by-element copy of a list of results.
pub(crate) fn copy_results(v: &Vec<PlayerRoundResult>) -> (r: Vec<PlayerRoundResult>)
    ensures
        r@ == v@,
{
    let mut r: Vec<PlayerRoundResult> = Vec::new();
    let mut i: usize = 0;
    while i < v.len()
        invariant
            i <= v@.len(),
            r@ == v@.subrange(0, i as int),
        decreases v@.len() - i,
    {
        r.push(v[i]);
        i = i + 1;
        assert(r@ =~= v@.subrange(0, i as int));
    }
    assert(r@ =~= v@);
    r
}

/// Over rounds that each give a seat between -5 and 25 points, the seat's total lies
/// between -5 and 25 times the number of rounds.
pub proof fn lemma_total_points_bounds(h: Seq<RoundResult>, n: int, k: int)
    requires
        0 <= k < n,
        forall|r: int| 0 <= r < h.len() ==> round_ok(#[trigger] h[r], n),
    ensures
        -5 * h.len() <= total_points(h, k) <= 25 * h.len(),
    decreases h.len(),
{
    if h.len() > 0 {
        let init = h.drop_last();
        assert forall|r: int| 0 <= r < init.len() implies round_ok(#[trigger] init[r], n) by {
            assert(init[r] == h[r]);
        }
        lemma_total_points_bounds(init, n, k);
        assert(round_ok(h[h.len() - 1], n));
    }
}

/// One step of a room's life: one of its operations, whatever it answered.
pub open spec fn step(prev: RacingGame, next: RacingGame) -> bool {
    ||| started(prev, next)
    ||| triggered(prev, next)
    ||| exists|id: u8, t: u64, r: Result<PlayerRoundResult, RaceError>|
        #[trigger] reaction_taken(prev, next, id, t, r)
    ||| exists|r: RoundResult| #[trigger] finished(prev, next, r)
}

/// How many of the first `m` steps of `rooms` scored a round.
pub open spec fn rounds_scored(rooms: Seq<RacingGame>, m: int) -> int
    decreases m,
{
    if m <= 0 {
        0
    } else {
        rounds_scored(rooms, m - 1) + if exists|r: RoundResult| #[trigger] finished(rooms[m - 1], rooms[m], r) {
            1int
        } else {
            0int
        }
    }
}

/// In a room's life that starts with no round played, the round counter always equals
/// the number of rounds scored so far, and a scoring step ends the game exactly when
/// that number reaches the room's number of rounds.
pub proof fn lemma_rounds_counted(rooms: Seq<RacingGame>)
    requires
        rooms.len() >= 1,
        rooms[0].current_round == 0,
        forall|i: int| 0 <= i < rooms.len() - 1 ==> step(#[trigger] rooms[i], rooms[i + 1]),
    ensures
        forall|m: int|
            0 <= m < rooms.len() ==> (#[trigger] rooms[m]).current_round == rounds_scored(rooms, m)
                && rooms[m].max_rounds == rooms[0].max_rounds,
        forall|m: int, r: RoundResult|
            0 < m < rooms.len() && #[trigger] finished(rooms[m - 1], rooms[m], r) ==> (
            rooms[m].game_state == GameState::GameOver <==> rounds_scored(rooms, m)
                >= rooms[0].max_rounds),
    decreases rooms.len(),
{
    if rooms.len() > 1 {
        let init = rooms.drop_last();
        assert forall|i: int| 0 <= i < init.len() - 1 implies step(#[trigger] init[i], init[i + 1]) by {
            assert(step(rooms[i], rooms[i + 1]));
        }
        lemma_rounds_prefix(rooms, init);
        lemma_rounds_counted(init);
        let last = rooms.len() - 1;
        assert(step(rooms[last - 1], rooms[last]));
        assert(rooms[last - 1] == init[last - 1]);
        assert forall|m: int| 0 <= m < rooms.len() implies (#[trigger] rooms[m]).current_round
            == rounds_scored(rooms, m) && rooms[m].max_rounds == rooms[0].max_rounds by {
            if m < last {
                assert(rooms[m] == init[m]);
            }
        }
        assert forall|m: int, r: RoundResult|
            0 < m < rooms.len() && #[trigger] finished(rooms[m - 1], rooms[m], r) implies (
            rooms[m].game_state == GameState::GameOver <==> rounds_scored(rooms, m)
                >= rooms[0].max_rounds) by {
            if m < last {
                assert(rooms[m] == init[m]);
                assert(rooms[m - 1] == init[m - 1]);
            }
        }
    }
}

/// Dropping later rooms does not change the count of the earlier steps.
proof fn lemma_rounds_prefix(rooms: Seq<RacingGame>, init: Seq<RacingGame>)
    requires
        init.len() <= rooms.len(),
        forall|i: int| 0 <= i < init.len() ==> init[i] == rooms[i],
    ensures
        forall|m: int| 0 <= m < init.len() ==> rounds_scored(init, m) == rounds_scored(rooms, m),
{
    assert forall|m: int| 0 <= m < init.len() implies rounds_scored(init, m) == rounds_scored(
        rooms,
        m,
    ) by {
        lemma_rounds_scored_agree(rooms, init, m);
    }
}

proof fn lemma_rounds_scored_agree(rooms: Seq<RacingGame>, init: Seq<RacingGame>, m: int)
    requires
        0 <= m < init.len() <= rooms.len(),
        forall|i: int| 0 <= i < init.len() ==> init[i] == rooms[i],
    ensures
        rounds_scored(init, m) == rounds_scored(rooms, m),
    decreases m,
{
    if m > 0 {
        lemma_rounds_scored_agree(rooms, init, m - 1);
        assert(init[m - 1] == rooms[m - 1]);
        assert(init[m] == rooms[m]);
    }
}

/// Outside the Racing phase a reaction is refused as `InvalidState`, and the reactions
/// of the round stay as they were.
pub proof fn lemma_reaction_needs_racing(
    prev: RacingGame,
    next: RacingGame,
    id: u8,
    t: u64,
    r: Result<PlayerRoundResult, RaceError>,
)
    requires
        reaction_taken(prev, next, id, t, r),
        prev.game_state != GameState::Racing,
    ensures
        r == Err::<PlayerRoundResult, RaceError>(RaceError::InvalidState),
        next.reacted_players == prev.reacted_players,
        next.player_reactions == prev.player_reactions,
{
}

/// Once a player's reaction is taken, a second one in the same round is refused as
/// `DuplicateReaction` and the recorded time stays.
pub proof fn lemma_second_reaction_refused(
    g0: RacingGame,
    g1: RacingGame,
    g2: RacingGame,
    id: u8,
    t1: u64,
    t2: u64,
    r1: Result<PlayerRoundResult, RaceError>,
    r2: Result<PlayerRoundResult, RaceError>,
)
    requires
        g0.wf(),
        reaction_taken(g0, g1, id, t1, r1),
        r1 is Ok,
        reaction_taken(g1, g2, id, t2, r2),
    ensures
        r2 == Err::<PlayerRoundResult, RaceError>(RaceError::DuplicateReaction),
        g2 == g1,
        lookup(g2.player_reactions@, id) == lookup(g1.player_reactions@, id),
{
    assert(g1.reacted_players@.last() == id);
    assert(g1.reacted_players@.contains(id));
}

/// A player's score is the sum of the points of all their rounds so far.
pub proof fn lemma_score_is_sum_of_points(g: RacingGame, k: int)
    requires
        g.wf(),
        0 <= k < g.players@.len(),
    ensures
        g.players@[k].score == total_points(g.round_results@, k),
{
}

/// How many of the seats `0..m` have a counting time.
pub open spec fn count_valid(times: Seq<Option<u64>>, m: int) -> nat
    decreases m,
{
    if m <= 0 {
        0
    } else {
        count_valid(times, m - 1) + if times[m - 1] is Some {
            1nat
        } else {
            0nat
        }
    }
}

/// Whoever is ahead of `j` is ahead of `i` when `j` is ahead of `i`, and `j` itself
/// counts for `i` only.
proof fn lemma_ahead_monotone(times: Seq<Option<u64>>, i: int, j: int, m: int)
    requires
        0 <= i < times.len(),
        0 <= j < times.len(),
        0 <= m <= times.len(),
        ahead(times, j, i),
    ensures
        count_ahead(times, j, m) + (if j < m {
            1int
        } else {
            0int
        }) <= count_ahead(times, i, m),
    decreases m,
{
    if m > 0 {
        lemma_ahead_monotone(times, i, j, m - 1);
    }
}

/// The seats ahead of a seat with a counting time are among the other such seats.
proof fn lemma_ahead_bounded(times: Seq<Option<u64>>, i: int, m: int)
    requires
        0 <= i < times.len(),
        0 <= m <= times.len(),
        times[i] is Some,
    ensures
        count_ahead(times, i, m) + (if i < m {
            1int
        } else {
            0int
        }) <= count_valid(times, m),
    decreases m,
{
    if m > 0 {
        lemma_ahead_bounded(times, i, m - 1);
    }
}

/// The seats of `0..m` with a counting time, as a set.
spec fn valid_seats(times: Seq<Option<u64>>, m: int) -> Set<int> {
    Set::new(|i: int| 0 <= i < m && times[i] is Some)
}

/// There are `count_valid` seats with a counting time.
proof fn lemma_valid_seats_len(times: Seq<Option<u64>>, m: int)
    requires
        0 <= m <= times.len(),
    ensures
        valid_seats(times, m).finite(),
        valid_seats(times, m).len() == count_valid(times, m),
    decreases m,
{
    if m == 0 {
        assert(valid_seats(times, m) =~= Set::<int>::empty());
    } else {
        lemma_valid_seats_len(times, m - 1);
        let prev = valid_seats(times, m - 1);
        if times[m - 1] is Some {
            assert(valid_seats(times, m) =~= prev.insert(m - 1));
        } else {
            assert(valid_seats(times, m) =~= prev);
        }
    }
}

/// Some seat has rank `r`.
pub open spec fn rank_taken(times: Seq<Option<u64>>, r: int) -> bool {
    exists|i: int| 0 <= i < times.len() && #[trigger] rank_of(times, i) == Some(r)
}

/// Ranks over a list of counting times: exactly the seats with a time get one, faster
/// seats rank strictly better, no two seats share a rank, and the ranks are `1..=k`
/// without gaps, `k` being the number of seats with a time. `finish_round` ranks seat
/// `k` by `rank_of(valid_times(players, reactions), k)`.
pub proof fn lemma_rank_order(times: Seq<Option<u64>>)
    ensures
        forall|i: int| 0 <= i < times.len() ==> ((#[trigger] rank_of(times, i)) is Some <==> times[i] is Some),
        forall|i: int, j: int|
            0 <= i < times.len() && 0 <= j < times.len() && times[i] is Some && times[j] is Some
                && times[i]->0 < times[j]->0 ==> #[trigger] rank_of(times, i)->0 < #[trigger] rank_of(times, j)->0,
        forall|i: int, j: int|
            0 <= i < times.len() && 0 <= j < times.len() && i != j && times[i] is Some
                && times[j] is Some ==> #[trigger] rank_of(times, i) != #[trigger] rank_of(times, j),
        forall|i: int|
            0 <= i < times.len() && times[i] is Some ==> 1 <= (#[trigger] rank_of(times, i))->0
                <= count_valid(times, times.len() as int),
        forall|r: int| 1 <= r <= count_valid(times, times.len() as int) ==> #[trigger] rank_taken(times, r),
{
    let n = times.len() as int;
    assert forall|i: int, j: int|
        0 <= i < n && 0 <= j < n && times[i] is Some && times[j] is Some && times[i]->0
            < times[j]->0 implies #[trigger] rank_of(times, i)->0 < #[trigger] rank_of(times, j)->0 by {
        lemma_ahead_monotone(times, j, i, n);
    }
    assert forall|i: int, j: int|
        0 <= i < n && 0 <= j < n && i != j && times[i] is Some && times[j] is Some implies #[trigger] rank_of(
        times,
        i,
    ) != #[trigger] rank_of(times, j) by {
        if ahead(times, j, i) {
            lemma_ahead_monotone(times, i, j, n);
        } else {
            lemma_ahead_monotone(times, j, i, n);
        }
    }
    assert forall|i: int| 0 <= i < n && times[i] is Some implies 1 <= (#[trigger] rank_of(
        times,
        i,
    ))->0 <= count_valid(times, n) by {
        lemma_ahead_bounded(times, i, n);
    }
    // the ranks map the seats with a time one-to-one onto 1..=k
    let k = count_valid(times, n) as int;
    let seats = valid_seats(times, n);
    let f = |i: int| rank_of(times, i)->0;
    lemma_valid_seats_len(times, n);
    assert(injective_on(f, seats)) by {
        assert forall|i: int, j: int| seats.contains(i) && seats.contains(j) && #[trigger] f(i)
            == #[trigger] f(j) implies i == j by {
            if i != j {
                assert(rank_of(times, i) != rank_of(times, j));
            }
        }
    }
    let ranks = seats.map(f);
    lemma_map_size(seats, ranks, f);
    let range = set_int_range(1, k + 1);
    lemma_int_range(1, k + 1);
    assert(ranks.subset_of(range)) by {
        assert forall|r: int| ranks.contains(r) implies range.contains(r) by {
            let i = choose|i: int| seats.contains(i) && f(i) == r;
            assert(1 <= rank_of(times, i)->0 <= k);
        }
    }
    lemma_subset_equality(ranks, range);
    assert forall|r: int| 1 <= r <= k implies #[trigger] rank_taken(times, r) by {
        assert(range.contains(r));
        assert(ranks.contains(r));
        let i = choose|i: int| seats.contains(i) && f(i) == r;
        assert(rank_of(times, i) == Some(r));
    }
}

} // verus!
