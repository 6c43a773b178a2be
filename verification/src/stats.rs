//! Outcomes of games and the tallies drawn from them.

use vstd::prelude::*;

verus! {

/// Result of a single game.
#[derive(Clone, Debug)]
pub struct GameResult {
    /// Index of the winning agent, or `None` if it was a draw.
    pub winner: Option<usize>,
    /// Number of turns the game lasted.
    pub turns: u32,
    /// Number of snakes in the game.
    pub num_snakes: usize,
}

/// Aggregated statistics for an agent.
#[derive(Clone, Debug)]
pub struct AgentStats {
    pub name: String,
    pub wins: u32,
    pub losses: u32,
    pub draws: u32,
    pub total_games: u32,
    pub total_turns: u64,
}

/// Statistics of a tournament. The mean game length is `total_turns` over
/// `total_games`; the quotient is left to whoever shows it.
#[derive(Clone, Debug)]
pub struct TournamentStats {
    pub agent_stats: Vec<AgentStats>,
    pub total_games: u32,
    pub total_draws: u32,
    pub total_turns: u64,
    pub min_game_length: u32,
    pub max_game_length: u32,
}

/// Head-to-head comparison between two agents.
#[derive(Clone, Debug)]
pub struct HeadToHeadStats {
    pub agent1_name: String,
    pub agent2_name: String,
    pub agent1_wins: u32,
    pub agent2_wins: u32,
    pub draws: u32,
}

/// The game has a winner among the first `agents` agents.
pub open spec fn decided(r: GameResult, agents: int) -> bool {
    r.winner matches Some(w) && w < agents
}

/// Agent `i` won the game.
pub open spec fn won(r: GameResult, i: int, agents: int) -> bool {
    decided(r, agents) && r.winner == Some(i as usize)
}

/// Agent `i` played the game and another agent won it.
pub open spec fn lost(r: GameResult, i: int, agents: int) -> bool {
    decided(r, agents) && r.winner != Some(i as usize) && i < r.num_snakes
}

/// Agent `i` played the game and nobody among the agents won it.
pub open spec fn drew(r: GameResult, i: int, agents: int) -> bool {
    !decided(r, agents) && i < r.num_snakes
}

/// The game counts for agent `i`.
pub open spec fn counts_for(r: GameResult, i: int, agents: int) -> bool {
    won(r, i, agents) || lost(r, i, agents) || drew(r, i, agents)
}

/// Games that agent `i` won.
pub open spec fn wins_in(results: Seq<GameResult>, i: int, agents: int) -> nat
    decreases results.len(),
{
    if results.len() == 0 {
        0
    } else {
        wins_in(results.drop_last(), i, agents) + if won(results.last(), i, agents) {
            1nat
        } else {
            0nat
        }
    }
}

/// Games that agent `i` lost.
pub open spec fn losses_in(results: Seq<GameResult>, i: int, agents: int) -> nat
    decreases results.len(),
{
    if results.len() == 0 {
        0
    } else {
        losses_in(results.drop_last(), i, agents) + if lost(results.last(), i, agents) {
            1nat
        } else {
            0nat
        }
    }
}

/// Games that agent `i` drew.
pub open spec fn draws_in(results: Seq<GameResult>, i: int, agents: int) -> nat
    decreases results.len(),
{
    if results.len() == 0 {
        0
    } else {
        draws_in(results.drop_last(), i, agents) + if drew(results.last(), i, agents) {
            1nat
        } else {
            0nat
        }
    }
}

/// Turns of all games that count for agent `i`.
pub open spec fn turns_in(results: Seq<GameResult>, i: int, agents: int) -> nat
    decreases results.len(),
{
    if results.len() == 0 {
        0
    } else {
        turns_in(results.drop_last(), i, agents) + if counts_for(results.last(), i, agents) {
            results.last().turns as nat
        } else {
            0nat
        }
    }
}

/// Games without a winner among the agents.
pub open spec fn undecided_in(results: Seq<GameResult>, agents: int) -> nat
    decreases results.len(),
{
    if results.len() == 0 {
        0
    } else {
        undecided_in(results.drop_last(), agents) + if decided(results.last(), agents) {
            0nat
        } else {
            1nat
        }
    }
}

/// Turns of all games.
pub open spec fn turns_of(results: Seq<GameResult>) -> nat
    decreases results.len(),
{
    if results.len() == 0 {
        0
    } else {
        turns_of(results.drop_last()) + results.last().turns as nat
    }
}

/// Length of the shortest game; the largest `u32` where there is no game.
pub open spec fn shortest(results: Seq<GameResult>) -> int
    decreases results.len(),
{
    if results.len() == 0 {
        u32::MAX as int
    } else {
        let rest = shortest(results.drop_last());
        if results.last().turns < rest {
            results.last().turns as int
        } else {
            rest
        }
    }
}

/// Length of the longest game; 0 where there is no game.
pub open spec fn longest(results: Seq<GameResult>) -> int
    decreases results.len(),
{
    if results.len() == 0 {
        0
    } else {
        let rest = longest(results.drop_last());
        if results.last().turns > rest {
            results.last().turns as int
        } else {
            rest
        }
    }
}

/// Games that agent 0 won, that agent 1 won, and all others, in this order.
pub open spec fn duel_tally(results: Seq<GameResult>) -> (nat, nat, nat)
    decreases results.len(),
{
    if results.len() == 0 {
        (0, 0, 0)
    } else {
        let rest = duel_tally(results.drop_last());
        if results.last().winner == Some(0usize) {
            ((rest.0 + 1) as nat, rest.1, rest.2)
        } else if results.last().winner == Some(1usize) {
            (rest.0, (rest.1 + 1) as nat, rest.2)
        } else {
            (rest.0, rest.1, (rest.2 + 1) as nat)
        }
    }
}

/// The first `k + 1` games are the first `k` games and the game at `k`.
proof fn tallies_step(results: Seq<GameResult>, k: int)
    requires
        0 <= k < results.len(),
    ensures
        results.take(k + 1).drop_last() == results.take(k),
        results.take(k + 1).last() == results[k],
{
    assert(results.take(k + 1).drop_last() =~= results.take(k));
}

/// No tally outgrows the number of games, and turns are bounded with it.
proof fn tallies_are_bounded(results: Seq<GameResult>, i: int, agents: int)
    ensures
        wins_in(results, i, agents) + losses_in(results, i, agents) + draws_in(results, i, agents)
            <= results.len(),
        turns_in(results, i, agents) <= results.len() * u32::MAX,
        turns_of(results) <= results.len() * u32::MAX,
        undecided_in(results, agents) <= results.len(),
        0 <= longest(results) <= u32::MAX,
        0 <= shortest(results) <= u32::MAX,
        duel_tally(results).0 + duel_tally(results).1 + duel_tally(results).2 == results.len(),
    decreases results.len(),
{
    if results.len() > 0 {
        tallies_are_bounded(results.drop_last(), i, agents);
    }
}

impl AgentStats {
    /// A fresh record: the name and no game yet.
    pub fn new(name: String) -> (stats: Self)
        ensures
            stats.name == name,
            stats.wins == 0,
            stats.losses == 0,
            stats.draws == 0,
            stats.total_games == 0,
            stats.total_turns == 0,
    {
        AgentStats { name, wins: 0, losses: 0, draws: 0, total_games: 0, total_turns: 0 }
    }

    /// The record of agent `index` over the games.
    fn tally(results: &[GameResult], index: usize, agents: usize, name: String) -> (stats: Self)
        requires
            results@.len() <= u32::MAX,
        ensures
            stats.name == name,
            stats.wins == wins_in(results@, index as int, agents as int),
            stats.losses == losses_in(results@, index as int, agents as int),
            stats.draws == draws_in(results@, index as int, agents as int),
            stats.total_games == stats.wins + stats.losses + stats.draws,
            stats.total_turns == turns_in(results@, index as int, agents as int),
    {
        let mut stats = AgentStats::new(name);
        let mut k: usize = 0;
        while k < results.len()
            invariant
                k <= results@.len(),
                results@.len() <= u32::MAX,
                stats.name == name,
                stats.wins == wins_in(results@.take(k as int), index as int, agents as int),
                stats.losses == losses_in(results@.take(k as int), index as int, agents as int),
                stats.draws == draws_in(results@.take(k as int), index as int, agents as int),
                stats.total_games == stats.wins + stats.losses + stats.draws,
                stats.total_turns == turns_in(results@.take(k as int), index as int, agents as int),
            decreases results@.len() - k,
        {
            proof {
                tallies_step(results@, k as int);
                tallies_are_bounded(results@.take(k as int), index as int, agents as int);
                tallies_are_bounded(results@.take(k + 1), index as int, agents as int);
                assert(results@.take(k as int).len() * u32::MAX <= (u32::MAX - 1) * u32::MAX)
                    by (nonlinear_arith)
                    requires
                        results@.take(k as int).len() <= u32::MAX - 1,
                ;
            }
            let result = &results[k];
            let is_decided = match result.winner {
                Some(w) => w < agents,
                None => false,
            };
            let is_winner = match result.winner {
                Some(w) => w < agents && w == index,
                None => false,
            };
            if is_winner {
                stats.wins = stats.wins + 1;
                stats.total_games = stats.total_games + 1;
                stats.total_turns = stats.total_turns + result.turns as u64;
            } else if index < result.num_snakes {
                if is_decided {
                    stats.losses = stats.losses + 1;
                } else {
                    stats.draws = stats.draws + 1;
                }
                stats.total_games = stats.total_games + 1;
                stats.total_turns = stats.total_turns + result.turns as u64;
            }
            k = k + 1;
        }
        assert(results@.take(k as int) =~= results@);
        stats
    }
}

impl TournamentStats {
    /// Computes the statistics of a tournament: for every named agent its
    /// wins, losses and draws with the turns of the games that count for it,
    /// and over all games their number, the draws, the turns, and the
    /// lengths of the shortest and the longest game (0 where no game was
    /// played).
    pub fn from_results(results: &[GameResult], agent_names: &[String]) -> (stats: Self)
        requires
            results@.len() <= u32::MAX,
        ensures
            stats.agent_stats@.len() == agent_names@.len(),
            forall|i: int|
                0 <= i < agent_names@.len() ==> {
                    let record = #[trigger] stats.agent_stats@[i];
                    &&& record.name == agent_names@[i]
                    &&& record.wins == wins_in(results@, i, agent_names@.len() as int)
                    &&& record.losses == losses_in(results@, i, agent_names@.len() as int)
                    &&& record.draws == draws_in(results@, i, agent_names@.len() as int)
                    &&& record.total_games == record.wins + record.losses + record.draws
                    &&& record.total_turns == turns_in(results@, i, agent_names@.len() as int)
                },
            stats.total_games == results@.len(),
            stats.total_draws == undecided_in(results@, agent_names@.len() as int),
            stats.total_turns == turns_of(results@),
            stats.min_game_length == if results@.len() == 0 {
                0
            } else {
                shortest(results@)
            },
            stats.max_game_length == longest(results@),
    {
        let agents: usize = agent_names.len();
        let mut agent_stats: Vec<AgentStats> = Vec::new();
        let mut i: usize = 0;
        while i < agents
            invariant
                i <= agents,
                agents == agent_names@.len(),
                results@.len() <= u32::MAX,
                agent_stats@.len() == i,
                forall|j: int|
                    0 <= j < i ==> {
                        let record = #[trigger] agent_stats@[j];
                        &&& record.name == agent_names@[j]
                        &&& record.wins == wins_in(results@, j, agents as int)
                        &&& record.losses == losses_in(results@, j, agents as int)
                        &&& record.draws == draws_in(results@, j, agents as int)
                        &&& record.total_games == record.wins + record.losses + record.draws
                        &&& record.total_turns == turns_in(results@, j, agents as int)
                    },
            decreases agents - i,
        {
            let record = AgentStats::tally(results, i, agents, agent_names[i].clone());
            agent_stats.push(record);
            i = i + 1;
        }

        let mut total_draws: u32 = 0;
        let mut min_length: u32 = u32::MAX;
        let mut max_length: u32 = 0;
        let mut total_turns: u64 = 0;
        let mut k: usize = 0;
        while k < results.len()
            invariant
                k <= results@.len(),
                results@.len() <= u32::MAX,
                agents == agent_names@.len(),
                total_draws == undecided_in(results@.take(k as int), agents as int),
                total_turns == turns_of(results@.take(k as int)),
                min_length == shortest(results@.take(k as int)),
                max_length == longest(results@.take(k as int)),
            decreases results@.len() - k,
        {
            proof {
                tallies_step(results@, k as int);
                tallies_are_bounded(results@.take(k as int), 0, agents as int);
                assert(results@.take(k as int).len() * u32::MAX <= (u32::MAX - 1) * u32::MAX)
                    by (nonlinear_arith)
                    requires
                        results@.take(k as int).len() <= u32::MAX - 1,
                ;
            }
            let result = &results[k];
            total_turns = total_turns + result.turns as u64;
            if result.turns < min_length {
                min_length = result.turns;
            }
            if result.turns > max_length {
                max_length = result.turns;
            }
            let is_decided = match result.winner {
                Some(w) => w < agents,
                None => false,
            };
            if !is_decided {
                total_draws = total_draws + 1;
            }
            k = k + 1;
        }
        assert(results@.take(k as int) =~= results@);
        TournamentStats {
            agent_stats,
            total_games: results.len() as u32,
            total_draws,
            total_turns,
            min_game_length: if results.len() == 0 {
                0
            } else {
                min_length
            },
            max_game_length: max_length,
        }
    }
}

impl HeadToHeadStats {
    /// Counts the games that the first agent won, those that the second won,
    /// and all others as draws.
    pub fn from_results(results: &[GameResult], agent1_name: &str, agent2_name: &str) -> (stats:
        Self)
        requires
            results@.len() <= u32::MAX,
        ensures
            stats.agent1_name@ == agent1_name@,
            stats.agent2_name@ == agent2_name@,
            stats.agent1_wins == duel_tally(results@).0,
            stats.agent2_wins == duel_tally(results@).1,
            stats.draws == duel_tally(results@).2,
            stats.agent1_wins + stats.agent2_wins + stats.draws == results@.len(),
    {
        let mut agent1_wins: u32 = 0;
        let mut agent2_wins: u32 = 0;
        let mut draws: u32 = 0;
        let mut k: usize = 0;
        while k < results.len()
            invariant
                k <= results@.len(),
                results@.len() <= u32::MAX,
                agent1_wins == duel_tally(results@.take(k as int)).0,
                agent2_wins == duel_tally(results@.take(k as int)).1,
                draws == duel_tally(results@.take(k as int)).2,
            decreases results@.len() - k,
        {
            proof {
                tallies_step(results@, k as int);
                tallies_are_bounded(results@.take(k as int), 0, 0);
            }
            match results[k].winner {
                Some(0) => {
                    agent1_wins = agent1_wins + 1;
                },
                Some(1) => {
                    agent2_wins = agent2_wins + 1;
                },
                _ => {
                    draws = draws + 1;
                },
            }
            k = k + 1;
        }
        proof {
            assert(results@.take(k as int) =~= results@);
            tallies_are_bounded(results@, 0, 0);
        }
        HeadToHeadStats {
            agent1_name: agent1_name.to_owned(),
            agent2_name: agent2_name.to_owned(),
            agent1_wins,
            agent2_wins,
            draws,
        }
    }
}

} // verus!
