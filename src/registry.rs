use vstd::prelude::*;
use crate::race::{
    copy_results, finished, reaction_taken, started, triggered, GameState, Player, PlayerRoundResult,
    RaceError, RacingGame, RoundResult,
};

verus! {

/// What a client sends to open a room.
#[derive(Debug)]
pub struct CreateGameRequest {
    pub player_count: u8,
    pub round_count: u8,
    pub player_names: Vec<String>,
}

/// A reaction reported by a client; the time is in microseconds.
#[derive(Debug)]
pub struct ReactionRequest {
    pub game_id: String,
    pub player_id: u8,
    pub reaction_time: u64,
}

/// A snapshot of a room, as handed back to clients.
#[derive(Debug)]
pub struct GameResponse {
    pub game_id: String,
    pub game_state: GameState,
    pub players: Vec<Player>,
    pub current_round: u8,
    pub max_rounds: u8,
    pub round_results: Vec<RoundResult>,
}

/// Two histories hold the same rounds.
pub open spec fn same_rounds(a: Seq<RoundResult>, b: Seq<RoundResult>) -> bool {
    &&& a.len() == b.len()
    &&& forall|i: int|
        0 <= i < a.len() ==> {
            &&& (#[trigger] a[i]).round == b[i].round
            &&& a[i].player_results@ == b[i].player_results@
        }
}

impl GameResponse {
    /// `self` shows the room `g` as it stands.
    pub open spec fn shows(&self, g: RacingGame) -> bool {
        &&& self.game_id@ == g.game_id@
        &&& self.game_state == g.game_state
        &&& self.players@ == g.players@
        &&& self.current_round == g.current_round
        &&& self.max_rounds == g.max_rounds
        &&& same_rounds(self.round_results@, g.round_results@)
    }
}

/// A copy of a list of players.
fn copy_players(v: &Vec<Player>) -> (r: Vec<Player>)
    ensures
        r@ == v@,
{
    let mut r: Vec<Player> = Vec::new();
    let mut i: usize = 0;
    while i < v.len()
        invariant
            i <= v@.len(),
            r@ == v@.subrange(0, i as int),
        decreases v@.len() - i,
    {
        let p = &v[i];
        r.push(
            Player {
                id: p.id,
                name: p.name.clone(),
                score: p.score,
                key: p.key.clone(),
                is_ready: p.is_ready,
            },
        );
        i = i + 1;
        assert(r@ =~= v@.subrange(0, i as int));
    }
    assert(r@ =~= v@);
    r
}

/// A copy of a history of rounds.
fn copy_rounds(v: &Vec<RoundResult>) -> (r: Vec<RoundResult>)
    ensures
        same_rounds(r@, v@),
{
    let mut r: Vec<RoundResult> = Vec::new();
    let mut i: usize = 0;
    while i < v.len()
        invariant
            i <= v@.len(),
            same_rounds(r@, v@.subrange(0, i as int)),
        decreases v@.len() - i,
    {
        r.push(RoundResult { round: v[i].round, player_results: copy_results(&v[i].player_results) });
        i = i + 1;
    }
    assert(v@.subrange(0, v@.len() as int) =~= v@);
    r
}

/// A snapshot of room `g`.
fn snapshot(g: &RacingGame) -> (r: GameResponse)
    ensures
        r.shows(*g),
{
    GameResponse {
        game_id: g.game_id.clone(),
        game_state: g.game_state,
        players: copy_players(&g.players),
        current_round: g.current_round,
        max_rounds: g.max_rounds,
        round_results: copy_rounds(&g.round_results),
    }
}

/// The rooms, looked up by identifier.
pub struct GameStateStorage {
    games: Vec<RacingGame>,
}

impl GameStateStorage {
    /// The rooms, in the order they were opened.
    pub closed spec fn rooms(&self) -> Seq<RacingGame> {
        self.games@
    }

    /// Every room is well formed and no two rooms share an identifier.
    pub open spec fn wf(&self) -> bool {
        &&& forall|i: int| 0 <= i < self.rooms().len() ==> (#[trigger] self.rooms()[i]).wf()
        &&& forall|i: int, j: int|
            0 <= i < j < self.rooms().len() ==> self.rooms()[i].game_id@ != self.rooms()[j].game_id@
    }

    /// A room has identifier `id`.
    pub open spec fn has_room(&self, id: Seq<char>) -> bool {
        exists|i: int| 0 <= i < self.rooms().len() && (#[trigger] self.rooms()[i]).game_id@ == id
    }

    /// `next` differs from `self` at most in the room at `i`.
    pub open spec fn others_kept(&self, next: GameStateStorage, i: int) -> bool {
        &&& next.rooms().len() == self.rooms().len()
        &&& forall|j: int| 0 <= j < self.rooms().len() && j != i ==> next.rooms()[j] == self.rooms()[j]
    }

    /// An empty registry.
    pub fn new() -> (r: Self)
        ensures
            r.wf(),
            r.rooms().len() == 0,
    {
        GameStateStorage { games: Vec::new() }
    }

    /// The position of the room with identifier `id`.
    fn find(&self, id: &str) -> (r: Option<usize>)
        ensures
            r matches Some(i) ==> i < self.rooms().len() && self.rooms()[i as int].game_id@ == id@,
            r is None ==> !self.has_room(id@),
    {
        let key = id.to_owned();
        let mut i: usize = 0;
        while i < self.games.len()
            invariant
                i <= self.games@.len(),
                key@ == id@,
                forall|j: int| 0 <= j < i ==> (#[trigger] self.games@[j]).game_id@ != id@,
            decreases self.games@.len() - i,
        {
            if self.games[i].game_id == key {
                return Some(i);
            }
            i = i + 1;
        }
        None
    }

    /// Keeps `game` under its identifier, in place of a room that had the same one.
    fn insert(&mut self, game: RacingGame)
        requires
            old(self).wf(),
            game.wf(),
        ensures
            final(self).wf(),
            final(self).has_room(game.game_id@),
            forall|i: int|
                0 <= i < final(self).rooms().len() && (#[trigger] final(self).rooms()[i]).game_id@
                    == game.game_id@ ==> final(self).rooms()[i] == game,
            forall|i: int|
                0 <= i < old(self).rooms().len() && (#[trigger] old(self).rooms()[i]).game_id@
                    != game.game_id@ ==> final(self).rooms().contains(old(self).rooms()[i]),
    {
        let ghost prev = self.games@;
        match self.find(game.game_id.as_str()) {
            Some(i) => {
                self.games.set(i, game);
                assert(self.games@[i as int] == game);
                assert forall|j: int| 0 <= j < prev.len() && (#[trigger] prev[j]).game_id@
                    != game.game_id@ implies self.games@.contains(prev[j]) by {
                    assert(self.games@[j] == prev[j]);
                }
            },
            None => {
                self.games.push(game);
                assert(self.games@[prev.len() as int] == game);
                assert forall|j: int| 0 <= j < prev.len() && (#[trigger] prev[j]).game_id@
                    != game.game_id@ implies self.games@.contains(prev[j]) by {
                    assert(self.games@[j] == prev[j]);
                }
            },
        }
    }

    /// Opens a room as requested and keeps it under its fresh identifier.
    pub fn create_game(&mut self, req: CreateGameRequest) -> (r: GameResponse)
        requires
            old(self).wf(),
        ensures
            final(self).wf(),
            exists|i: int|
                0 <= i < final(self).rooms().len() && r.shows(#[trigger] final(self).rooms()[i])
                    && exists|n: u32|
                    final(self).rooms()[i].is_opened(
                        n,
                        req.player_count,
                        req.round_count,
                        req.player_names@,
                    ),
            forall|i: int|
                0 <= i < old(self).rooms().len() && (#[trigger] old(self).rooms()[i]).game_id@
                    != r.game_id@ ==> final(self).rooms().contains(old(self).rooms()[i]),
    {
        let game = RacingGame::new(req.player_count, req.round_count, req.player_names);
        let response = snapshot(&game);
        let ghost g = game;
        self.insert(game);
        proof {
            let i = choose|i: int|
                0 <= i < self.rooms().len() && (#[trigger] self.rooms()[i]).game_id@ == g.game_id@;
            assert(self.rooms()[i] == g);
        }
        response
    }

    /// Begins a new round in room `game_id`; `None` when there is no such room.
    pub fn start_game(&mut self, game_id: &str) -> (r: Option<GameResponse>)
        requires
            old(self).wf(),
        ensures
            final(self).wf(),
            r is None <==> !old(self).has_room(game_id@),
            r is None ==> final(self).rooms() == old(self).rooms(),
            r matches Some(resp) ==> exists|i: int|
                0 <= i < old(self).rooms().len() && (#[trigger] old(self).rooms()[i]).game_id@
                    == game_id@ && started(old(self).rooms()[i], final(self).rooms()[i])
                    && old(self).others_kept(*final(self), i) && resp.shows(final(self).rooms()[i]),
    {
        match self.find(game_id) {
            Some(i) => {
                self.games[i].start_round();
                Some(snapshot(&self.games[i]))
            },
            None => None,
        }
    }

    /// Fires the start signal in room `game_id`; `None` when there is no such room.
    pub fn trigger_green_light(&mut self, game_id: &str) -> (r: Option<GameResponse>)
        requires
            old(self).wf(),
        ensures
            final(self).wf(),
            r is None <==> !old(self).has_room(game_id@),
            r is None ==> final(self).rooms() == old(self).rooms(),
            r matches Some(resp) ==> exists|i: int|
                0 <= i < old(self).rooms().len() && (#[trigger] old(self).rooms()[i]).game_id@
                    == game_id@ && triggered(old(self).rooms()[i], final(self).rooms()[i])
                    && old(self).others_kept(*final(self), i) && resp.shows(final(self).rooms()[i]),
    {
        match self.find(game_id) {
            Some(i) => {
                self.games[i].trigger_green_light();
                Some(snapshot(&self.games[i]))
            },
            None => None,
        }
    }

    /// Records a reaction in room `game_id`; `RoomNotFound` when there is no such room,
    /// otherwise the room's own answer.
    pub fn record_reaction(&mut self, game_id: &str, player_id: u8, reaction_time: u64) -> (r:
        Result<PlayerRoundResult, RaceError>)
        requires
            old(self).wf(),
        ensures
            final(self).wf(),
            r == Err::<PlayerRoundResult, RaceError>(RaceError::RoomNotFound) <==> !old(
                self,
            ).has_room(game_id@),
            !old(self).has_room(game_id@) ==> final(self).rooms() == old(self).rooms(),
            old(self).has_room(game_id@) ==> exists|i: int|
                0 <= i < old(self).rooms().len() && (#[trigger] old(self).rooms()[i]).game_id@
                    == game_id@ && reaction_taken(
                    old(self).rooms()[i],
                    final(self).rooms()[i],
                    player_id,
                    reaction_time,
                    r,
                ) && old(self).others_kept(*final(self), i),
    {
        match self.find(game_id) {
            Some(i) => self.games[i].record_reaction(player_id, reaction_time),
            None => Err(RaceError::RoomNotFound),
        }
    }

    /// Scores the current round of room `game_id`; `None` when there is no such room.
    pub fn finish_round(&mut self, game_id: &str) -> (r: Option<RoundResult>)
        requires
            old(self).wf(),
            forall|i: int|
                0 <= i < old(self).rooms().len() && (#[trigger] old(self).rooms()[i]).game_id@
                    == game_id@ ==> old(self).rooms()[i].current_round < 255,
        ensures
            final(self).wf(),
            r is None <==> !old(self).has_room(game_id@),
            r is None ==> final(self).rooms() == old(self).rooms(),
            r matches Some(res) ==> exists|i: int|
                0 <= i < old(self).rooms().len() && (#[trigger] old(self).rooms()[i]).game_id@
                    == game_id@ && finished(old(self).rooms()[i], final(self).rooms()[i], res)
                    && old(self).others_kept(*final(self), i),
    {
        match self.find(game_id) {
            Some(i) => Some(self.games[i].finish_round()),
            None => None,
        }
    }

    /// A snapshot of room `game_id`; `None` when there is no such room.
    pub fn get_game(&self, game_id: &str) -> (r: Option<GameResponse>)
        requires
            self.wf(),
        ensures
            r is None <==> !self.has_room(game_id@),
            r matches Some(resp) ==> exists|i: int|
                0 <= i < self.rooms().len() && (#[trigger] self.rooms()[i]).game_id@ == game_id@
                    && resp.shows(self.rooms()[i]),
    {
        match self.find(game_id) {
            Some(i) => Some(snapshot(&self.games[i])),
            None => None,
        }
    }
}

} // verus!
