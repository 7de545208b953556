use vstd::prelude::*;

verus! {

/// The mathematical content of a recorded score.
pub ghost struct ScoreRecord {
    pub player_address: Seq<char>,
    pub puzzle_id: u32,
    pub difficulty: Seq<char>,
    pub score: u32,
    pub time_remaining: u32,
    pub timestamp: u64,
}

/// One solved puzzle, as recorded.
#[derive(Clone, Debug, PartialEq, Eq)]
pub struct GameScore {
    pub player_address: String,
    pub puzzle_id: u32,
    pub difficulty: String,
    pub score: u32,
    pub time_remaining: u32,
    pub timestamp: u64,
}

impl View for GameScore {
    type V = ScoreRecord;

    open spec fn view(&self) -> ScoreRecord {
        ScoreRecord {
            player_address: self.player_address@,
            puzzle_id: self.puzzle_id,
            difficulty: self.difficulty@,
            score: self.score,
            time_remaining: self.time_remaining,
            timestamp: self.timestamp,
        }
    }
}

/// The sum of `w` over the records of `s`.
pub open spec fn tally(s: Seq<ScoreRecord>, w: spec_fn(ScoreRecord) -> nat) -> nat
    decreases s.len(),
{
    if s.len() == 0 {
        0
    } else {
        tally(s.drop_last(), w) + w(s.last())
    }
}

/// A record's score when it belongs to `player`.
pub open spec fn score_of(player: Seq<char>) -> spec_fn(ScoreRecord) -> nat {
    |r: ScoreRecord|
        if r.player_address == player {
            r.score as nat
        } else {
            0
        }
}

/// One for each record of `player`.
pub open spec fn entry_of(player: Seq<char>) -> spec_fn(ScoreRecord) -> nat {
    |r: ScoreRecord|
        if r.player_address == player {
            1
        } else {
            0
        }
}

/// One for each record of `player` at the hard difficulty.
pub open spec fn hard_entry_of(player: Seq<char>) -> spec_fn(ScoreRecord) -> nat {
    |r: ScoreRecord|
        if r.player_address == player && r.difficulty == "hard"@ {
            1
        } else {
            0
        }
}

/// The sum of the scores that `player` recorded.
pub open spec fn total_score(s: Seq<ScoreRecord>, player: Seq<char>) -> nat {
    tally(s, score_of(player))
}

/// How many puzzles `player` solved.
pub open spec fn solved_count(s: Seq<ScoreRecord>, player: Seq<char>) -> nat {
    tally(s, entry_of(player))
}

/// How many hard puzzles `player` solved.
pub open spec fn hard_count(s: Seq<ScoreRecord>, player: Seq<char>) -> nat {
    tally(s, hard_entry_of(player))
}

proof fn lemma_tally_step(s: Seq<ScoreRecord>, w: spec_fn(ScoreRecord) -> nat, i: int)
    requires
        0 <= i < s.len(),
    ensures
        tally(s.take(i + 1), w) == tally(s.take(i), w) + w(s[i]),
{
    assert(s.take(i + 1).drop_last() =~= s.take(i));
}

proof fn lemma_tally_prefix(s: Seq<ScoreRecord>, w: spec_fn(ScoreRecord) -> nat, i: int)
    requires
        0 <= i <= s.len(),
    ensures
        tally(s.take(i), w) <= tally(s, w),
    decreases s.len() - i,
{
    if i == s.len() {
        assert(s.take(i) =~= s);
    } else {
        lemma_tally_step(s, w, i);
        lemma_tally_prefix(s, w, i + 1);
    }
}

/// Score bonus for the time left on the clock: half again above 20 seconds, a
/// quarter again above 10 seconds, none otherwise.
pub open spec fn time_bonus(time_remaining: u32, base_score: u32) -> int {
    if time_remaining > 20 {
        base_score + base_score / 2
    } else if time_remaining > 10 {
        base_score + base_score / 4
    } else {
        base_score as int
    }
}

/// Points multiplier of a difficulty level; 0 for an unknown level.
pub open spec fn multiplier(difficulty: Seq<char>) -> u32 {
    if difficulty == "easy"@ {
        1
    } else if difficulty == "medium"@ {
        2
    } else if difficulty == "hard"@ {
        3
    } else {
        0
    }
}

/// The players of `s`, each once, in order of first appearance.
pub open spec fn players(s: Seq<ScoreRecord>) -> Seq<Seq<char>>
    decreases s.len(),
{
    if s.len() == 0 {
        Seq::empty()
    } else {
        let q = players(s.drop_last());
        if q.contains(s.last().player_address) {
            q
        } else {
            q.push(s.last().player_address)
        }
    }
}

/// A leaderboard entry as seen by contracts.
pub open spec fn board_view(b: Seq<(String, u32)>) -> Seq<(Seq<char>, u32)> {
    b.map_values(|e: (String, u32)| (e.0@, e.1))
}

/// `b` ranks the players of `s` by total score: at most `limit` entries and
/// as many as there are players up to that bound, each a distinct player with
/// their total, totals never increasing down the list, and no player left
/// out with a total above that of any listed one.
pub open spec fn is_leaderboard(s: Seq<ScoreRecord>, limit: u32, b: Seq<(Seq<char>, u32)>) -> bool {
    let ps = players(s);
    &&& b.len() == (if limit <= ps.len() {
        limit as int
    } else {
        ps.len() as int
    })
    &&& forall|i: int| 0 <= i < b.len() ==> ps.contains(#[trigger] b[i].0) && b[i].1 == total_score(s, b[i].0)
    &&& forall|i: int, j: int| 0 <= i < j < b.len() ==> b[i].0 != b[j].0 && b[i].1 >= b[j].1
    &&& forall|k: int, i: int|
        0 <= k < ps.len() && 0 <= i < b.len() && (forall|t: int| 0 <= t < b.len() ==> b[t].0 != ps[k])
            ==> total_score(s, #[trigger] ps[k]) <= #[trigger] b[i].1
}

/// Some player's total score exceeds `u32::MAX`.
pub open spec fn some_total_overflows(s: Seq<ScoreRecord>) -> bool {
    exists|k: int| 0 <= k < players(s).len() && total_score(s, #[trigger] players(s)[k]) > u32::MAX
}

proof fn lemma_players_step(s: Seq<ScoreRecord>, i: int)
    requires
        0 <= i < s.len(),
    ensures
        players(s.take(i + 1)) == (if players(s.take(i)).contains(s[i].player_address) {
            players(s.take(i))
        } else {
            players(s.take(i)).push(s[i].player_address)
        }),
{
    assert(s.take(i + 1).drop_last() =~= s.take(i));
}

proof fn lemma_players_prefix(s: Seq<ScoreRecord>, i: int)
    requires
        0 <= i <= s.len(),
    ensures
        players(s.take(i)).len() <= players(s).len(),
        forall|k: int| 0 <= k < players(s.take(i)).len() ==> players(s.take(i))[k] == players(s)[k],
    decreases s.len() - i,
{
    if i == s.len() {
        assert(s.take(i) =~= s);
    } else {
        lemma_players_step(s, i);
        lemma_players_prefix(s, i + 1);
    }
}

proof fn lemma_players_distinct(s: Seq<ScoreRecord>)
    ensures
        players(s).no_duplicates(),
    decreases s.len(),
{
    if s.len() > 0 {
        lemma_players_distinct(s.drop_last());
    }
}

proof fn lemma_absent_player_scores_nothing(s: Seq<ScoreRecord>, p: Seq<char>)
    requires
        !players(s).contains(p),
    ensures
        tally(s, score_of(p)) == 0,
    decreases s.len(),
{
    if s.len() > 0 {
        let q = players(s.drop_last());
        let lp = s.last().player_address;
        if q.contains(p) {
            let k = choose|k: int| 0 <= k < q.len() && q[k] == p;
            assert(players(s)[k] == p);
        }
        if q.contains(lp) {
            assert(lp != p);
        } else {
            assert(players(s)[q.len() as int] == lp);
        }
        lemma_absent_player_scores_nothing(s.drop_last(), p);
    }
}

spec fn count_true(b: Seq<bool>) -> nat
    decreases b.len(),
{
    if b.len() == 0 {
        0
    } else {
        count_true(b.drop_last()) + if b.last() {
            1nat
        } else {
            0nat
        }
    }
}

proof fn lemma_count_all_true(b: Seq<bool>)
    requires
        forall|j: int| 0 <= j < b.len() ==> b[j],
    ensures
        count_true(b) == b.len(),
    decreases b.len(),
{
    if b.len() > 0 {
        lemma_count_all_true(b.drop_last());
    }
}

proof fn lemma_count_update(b: Seq<bool>, k: int)
    requires
        0 <= k < b.len(),
        !b[k],
    ensures
        count_true(b.update(k, true)) == count_true(b) + 1,
    decreases b.len(),
{
    if k == b.len() - 1 {
        assert(b.update(k, true).drop_last() =~= b.drop_last());
    } else {
        lemma_count_update(b.drop_last(), k);
        assert(b.update(k, true).drop_last() =~= b.drop_last().update(k, true));
    }
}

/// Outcome of initialization.
#[derive(Clone, Copy, Debug, PartialEq, Eq, Structural)]
pub enum InitStatus {
    Success,
    AlreadyInitialized,
}

/// The observable state of the game: whether it was initialized, and the
/// scores recorded, oldest first.
pub ghost struct GameState {
    pub initialized: bool,
    pub scores: Seq<ScoreRecord>,
}

/// The game's score book.
pub struct StellarBomb {
    initialized: bool,
    scores: Vec<GameScore>,
}

impl View for StellarBomb {
    type V = GameState;

    closed spec fn view(&self) -> GameState {
        GameState {
            initialized: self.initialized,
            scores: self.scores@.map_values(|g: GameScore| g@),
        }
    }
}

impl StellarBomb {
    /// An uninitialized game with no score.
    pub fn new() -> (r: StellarBomb)
        ensures
            !r@.initialized,
            r@.scores == Seq::<ScoreRecord>::empty(),
    {
        let r = StellarBomb { initialized: false, scores: Vec::new() };
        assert(r@.scores =~= Seq::<ScoreRecord>::empty());
        r
    }

    /// Marks the game initialized; reports whether it already was.
    pub fn init(&mut self) -> (r: InitStatus)
        ensures
            r == (if old(self)@.initialized {
                InitStatus::AlreadyInitialized
            } else {
                InitStatus::Success
            }),
            final(self)@.initialized,
            final(self)@.scores == old(self)@.scores,
    {
        if self.initialized {
            return InitStatus::AlreadyInitialized;
        }
        self.initialized = true;
        InitStatus::Success
    }

    /// Records a solved puzzle, stamped with the current time `now`.
    pub fn save_score(
        &mut self,
        now: u64,
        player_address: String,
        puzzle_id: u32,
        difficulty: String,
        score: u32,
        time_remaining: u32,
    )
        ensures
            final(self)@.initialized == old(self)@.initialized,
            final(self)@.scores == old(self)@.scores.push(
                ScoreRecord {
                    player_address: player_address@,
                    puzzle_id,
                    difficulty: difficulty@,
                    score,
                    time_remaining,
                    timestamp: now,
                },
            ),
    {
        let entry = GameScore {
            player_address,
            puzzle_id,
            difficulty,
            score,
            time_remaining,
            timestamp: now,
        };
        self.scores.push(entry);
        assert(self@.scores =~= old(self)@.scores.push(entry@));
    }

    /// The sum of the scores of `player_address`, or None when it exceeds
    /// `u32::MAX`.
    pub fn checked_player_total_score(&self, player_address: &String) -> (r: Option<u32>)
        ensures
            r == (if total_score(self@.scores, player_address@) <= u32::MAX {
                Some(total_score(self@.scores, player_address@) as u32)
            } else {
                None
            }),
    {
        let ghost s = self@.scores;
        let ghost w = score_of(player_address@);
        let mut total: u32 = 0;
        let mut i: usize = 0;
        while i < self.scores.len()
            invariant
                s == self@.scores,
                w == score_of(player_address@),
                s.len() == self.scores@.len(),
                0 <= i <= s.len(),
                total == tally(s.take(i as int), w),
            decreases s.len() - i,
        {
            let e = &self.scores[i];
            proof {
                assert(s[i as int] == e@);
                lemma_tally_step(s, w, i as int);
            }
            if e.player_address == *player_address {
                match total.checked_add(e.score) {
                    Some(t) => {
                        total = t;
                    },
                    None => {
                        proof {
                            lemma_tally_prefix(s, w, i + 1);
                        }
                        return None;
                    },
                }
            }
            i += 1;
        }
        assert(s.take(i as int) =~= s);
        Some(total)
    }

    /// The sum of the scores of `player_address`.
    pub fn get_player_total_score(&self, player_address: &String) -> (r: u32)
        requires
            total_score(self@.scores, player_address@) <= u32::MAX,
        ensures
            r == total_score(self@.scores, player_address@),
    {
        match self.checked_player_total_score(player_address) {
            Some(t) => t,
            None => 0,
        }
    }

    /// How many puzzles `player_address` solved, or None when that exceeds
    /// `u32::MAX`.
    pub fn checked_puzzles_solved_count(&self, player_address: &String) -> (r: Option<u32>)
        ensures
            r == (if solved_count(self@.scores, player_address@) <= u32::MAX {
                Some(solved_count(self@.scores, player_address@) as u32)
            } else {
                None
            }),
    {
        let ghost s = self@.scores;
        let ghost w = entry_of(player_address@);
        let mut count: u32 = 0;
        let mut i: usize = 0;
        while i < self.scores.len()
            invariant
                s == self@.scores,
                w == entry_of(player_address@),
                s.len() == self.scores@.len(),
                0 <= i <= s.len(),
                count == tally(s.take(i as int), w),
            decreases s.len() - i,
        {
            let e = &self.scores[i];
            proof {
                assert(s[i as int] == e@);
                lemma_tally_step(s, w, i as int);
            }
            if e.player_address == *player_address {
                match count.checked_add(1) {
                    Some(c) => {
                        count = c;
                    },
                    None => {
                        proof {
                            lemma_tally_prefix(s, w, i + 1);
                        }
                        return None;
                    },
                }
            }
            i += 1;
        }
        assert(s.take(i as int) =~= s);
        Some(count)
    }

    /// How many puzzles `player_address` solved.
    pub fn get_puzzles_solved_count(&self, player_address: &String) -> (r: u32)
        requires
            solved_count(self@.scores, player_address@) <= u32::MAX,
        ensures
            r == solved_count(self@.scores, player_address@),
    {
        match self.checked_puzzles_solved_count(player_address) {
            Some(c) => c,
            None => 0,
        }
    }

    /// The total score of `player_address`, how many puzzles they solved, and
    /// how many of those were hard.
    pub fn get_player_stats(&self, player_address: &String) -> (r: (u32, u32, u32))
        requires
            total_score(self@.scores, player_address@) <= u32::MAX,
            solved_count(self@.scores, player_address@) <= u32::MAX,
        ensures
            r.0 == total_score(self@.scores, player_address@),
            r.1 == solved_count(self@.scores, player_address@),
            r.2 == hard_count(self@.scores, player_address@),
    {
        let ghost s = self@.scores;
        let ghost p = player_address@;
        let hard = String::from_str("hard");
        let mut total_score: u32 = 0;
        let mut total_puzzles: u32 = 0;
        let mut hard_puzzles: u32 = 0;
        let mut i: usize = 0;
        while i < self.scores.len()
            invariant
                s == self@.scores,
                p == player_address@,
                hard@ == "hard"@,
                s.len() == self.scores@.len(),
                0 <= i <= s.len(),
                tally(s, score_of(p)) <= u32::MAX,
                tally(s, entry_of(p)) <= u32::MAX,
                total_score == tally(s.take(i as int), score_of(p)),
                total_puzzles == tally(s.take(i as int), entry_of(p)),
                hard_puzzles == tally(s.take(i as int), hard_entry_of(p)),
                hard_puzzles <= total_puzzles,
            decreases s.len() - i,
        {
            let e = &self.scores[i];
            proof {
                assert(s[i as int] == e@);
                lemma_tally_step(s, score_of(p), i as int);
                lemma_tally_step(s, entry_of(p), i as int);
                lemma_tally_step(s, hard_entry_of(p), i as int);
                lemma_tally_prefix(s, score_of(p), i + 1);
                lemma_tally_prefix(s, entry_of(p), i + 1);
            }
            if e.player_address == *player_address {
                total_score = total_score + e.score;
                total_puzzles = total_puzzles + 1;
                if e.difficulty == hard {
                    hard_puzzles = hard_puzzles + 1;
                }
            }
            i += 1;
        }
        assert(s.take(i as int) =~= s);
        (total_score, total_puzzles, hard_puzzles)
    }

    /// Points multiplier of `difficulty`: 1 for "easy", 2 for "medium", 3 for
    /// "hard", 0 otherwise.
    pub fn get_difficulty_multiplier(difficulty: &String) -> (r: u32)
        ensures
            r == multiplier(difficulty@),
    {
        if *difficulty == String::from_str("easy") {
            1
        } else if *difficulty == String::from_str("medium") {
            2
        } else if *difficulty == String::from_str("hard") {
            3
        } else {
            0
        }
    }

    /// `base_score` with the bonus earned for `time_remaining` seconds left.
    pub fn calculate_time_bonus(time_remaining: u32, base_score: u32) -> (r: u32)
        requires
            time_bonus(time_remaining, base_score) <= u32::MAX,
        ensures
            r == time_bonus(time_remaining, base_score),
    {
        if time_remaining > 20 {
            base_score + (base_score / 2)
        } else if time_remaining > 10 {
            base_score + (base_score / 4)
        } else {
            base_score
        }
    }

    /// The bonus-adjusted score, or None when it exceeds `u32::MAX`.
    pub fn checked_time_bonus(time_remaining: u32, base_score: u32) -> (r: Option<u32>)
        ensures
            r == (if time_bonus(time_remaining, base_score) <= u32::MAX {
                Some(time_bonus(time_remaining, base_score) as u32)
            } else {
                None
            }),
    {
        let extra: u32 = if time_remaining > 20 {
            base_score / 2
        } else if time_remaining > 10 {
            base_score / 4
        } else {
            0
        };
        match base_score.checked_add(extra) {
            Some(_) => Some(Self::calculate_time_bonus(time_remaining, base_score)),
            None => None,
        }
    }

    /// A solution passes the basic check when it is not empty.
    pub fn validate_solution(puzzle_id: u32, solution: &String) -> (r: bool)
        ensures
            r == (solution@.len() > 0),
    {
        !solution.as_str().is_empty()
    }

    /// Removes every recorded score.
    pub fn clear_scores(&mut self)
        ensures
            final(self)@.initialized == old(self)@.initialized,
            final(self)@.scores == Seq::<ScoreRecord>::empty(),
    {
        self.scores = Vec::new();
        assert(self@.scores =~= Seq::<ScoreRecord>::empty());
    }

    /// Each player with their total score, in order of first appearance, or
    /// None when some total exceeds `u32::MAX`.
    fn player_totals(&self) -> (r: Option<Vec<(String, u32)>>)
        ensures
            r is None <==> some_total_overflows(self@.scores),
            r is Some ==> {
                &&& r->0@.len() == players(self@.scores).len()
                &&& forall|k: int|
                    0 <= k < r->0@.len() ==> r->0@[k].0@ == players(self@.scores)[k]
                        && r->0@[k].1 == total_score(self@.scores, players(self@.scores)[k])
            },
    {
        let ghost s = self@.scores;
        let mut agg: Vec<(String, u32)> = Vec::new();
        let mut i: usize = 0;
        while i < self.scores.len()
            invariant
                s == self@.scores,
                s.len() == self.scores@.len(),
                0 <= i <= s.len(),
                agg@.len() == players(s.take(i as int)).len(),
                forall|k: int|
                    0 <= k < agg@.len() ==> agg@[k].0@ == players(s.take(i as int))[k]
                        && agg@[k].1 == tally(s.take(i as int), score_of(agg@[k].0@)),
            decreases s.len() - i,
        {
            let e = &self.scores[i];
            let ghost t = s.take(i as int);
            let ghost p = e.player_address@;
            proof {
                assert(s[i as int] == e@);
                lemma_players_step(s, i as int);
                lemma_players_distinct(t);
                assert forall|x: Seq<char>|
                    #[trigger] tally(s.take(i as int + 1), score_of(x)) == tally(t, score_of(x))
                        + score_of(x)(s[i as int]) by {
                    lemma_tally_step(s, score_of(x), i as int);
                }
            }
            let mut j: usize = 0;
            while j < agg.len() && !(agg[j].0 == e.player_address)
                invariant
                    0 <= j <= agg@.len(),
                    p == e.player_address@,
                    forall|u: int| 0 <= u < j ==> agg@[u].0@ != p,
                decreases agg@.len() - j,
            {
                j += 1;
            }
            let ghost old_agg = agg@;
            let ghost at = j as int;
            if j < agg.len() {
                proof {
                    assert(players(t)[j as int] == p);
                }
                match agg[j].1.checked_add(e.score) {
                    Some(v) => {
                        let name = agg[j].0.clone();
                        agg.set(j, (name, v));
                    },
                    None => {
                        proof {
                            lemma_tally_prefix(s, score_of(p), i + 1);
                            lemma_players_prefix(s, i + 1);
                            assert(players(s)[j as int] == p);
                        }
                        return None;
                    },
                }
            } else {
                proof {
                    assert(!players(t).contains(p));
                    lemma_absent_player_scores_nothing(t, p);
                }
                let name = e.player_address.clone();
                agg.push((name, e.score));
            }
            proof {
                assert forall|k: int| 0 <= k < agg@.len() implies agg@[k].0@ == players(
                    s.take(i as int + 1),
                )[k] && agg@[k].1 == tally(s.take(i as int + 1), score_of(agg@[k].0@)) by {
                    let x = agg@[k].0@;
                    assert(tally(s.take(i as int + 1), score_of(x)) == tally(t, score_of(x))
                        + score_of(x)(s[i as int]));
                    if k != at {
                        assert(agg@[k] == old_agg[k]);
                        assert(players(t)[k] != p);
                    }
                }
            }
            i += 1;
        }
        proof {
            assert(s.take(i as int) =~= s);
            assert forall|k: int| 0 <= k < players(s).len() implies total_score(
                s,
                #[trigger] players(s)[k],
            ) <= u32::MAX by {
                assert(agg@[k].0@ == players(s)[k]);
            }
        }
        Some(agg)
    }

    /// The players ranked by total score, highest first, at most `limit` of
    /// them; among equal totals the player who scored first comes first.
    /// None when some player's total exceeds `u32::MAX`.
    pub fn get_leaderboard(&self, limit: u32) -> (r: Option<Vec<(String, u32)>>)
        ensures
            r is None <==> some_total_overflows(self@.scores),
            r is Some ==> is_leaderboard(self@.scores, limit, board_view(r->0@)),
    {
        let ghost s = self@.scores;
        let ghost ps = players(s);
        let agg = match self.player_totals() {
            Some(a) => a,
            None => {
                return None;
            },
        };
        proof {
            lemma_players_distinct(s);
        }
        let n = agg.len();
        let mut picked: Vec<bool> = Vec::new();
        while picked.len() < n
            invariant
                picked@.len() <= n,
                forall|j: int| 0 <= j < picked@.len() ==> !picked@[j],
                count_true(picked@) == 0,
            decreases n - picked@.len(),
        {
            proof {
                assert(picked@.push(false).drop_last() =~= picked@);
            }
            picked.push(false);
        }
        let mut res: Vec<(String, u32)> = Vec::new();
        let ghost mut idx: Seq<int> = Seq::empty();
        let ghost mut pos: Seq<int> = Seq::new(n as nat, |k: int| 0);
        while res.len() < n && (res.len() as u64) < (limit as u64)
            invariant
                n == agg@.len(),
                ps == players(s),
                ps.no_duplicates(),
                agg@.len() == ps.len(),
                forall|k: int|
                    0 <= k < agg@.len() ==> agg@[k].0@ == ps[k] && agg@[k].1 == total_score(
                        s,
                        ps[k],
                    ),
                picked@.len() == n,
                res@.len() <= n,
                res@.len() <= limit,
                idx.len() == res@.len(),
                pos.len() == n,
                count_true(picked@) == res@.len(),
                forall|i: int|
                    0 <= i < res@.len() ==> 0 <= #[trigger] idx[i] < n && picked@[idx[i]]
                        && res@[i].0@ == agg@[idx[i]].0@ && res@[i].1 == agg@[idx[i]].1,
                forall|k: int| 0 <= k < n && #[trigger] picked@[k] ==> 0 <= pos[k] < res@.len() && idx[pos[k]] == k,
                forall|i: int, j: int| 0 <= i < j < res@.len() ==> idx[i] != idx[j],
                forall|i: int, j: int| 0 <= i < j < res@.len() ==> res@[i].1 >= res@[j].1,
                forall|k: int, i: int|
                    0 <= k < n && 0 <= i < res@.len() && !picked@[k] ==> #[trigger] agg@[k].1
                        <= #[trigger] res@[i].1,
            decreases n - res@.len(),
        {
            let mut best: usize = 0;
            let mut found = false;
            let mut j: usize = 0;
            while j < n
                invariant
                    n == agg@.len(),
                    picked@.len() == n,
                    0 <= j <= n,
                    found ==> best < j && !picked@[best as int],
                    found ==> forall|t: int| 0 <= t < j && !picked@[t] ==> agg@[t].1 <= agg@[best as int].1,
                    !found ==> forall|t: int| 0 <= t < j ==> picked@[t],
                decreases n - j,
            {
                if !picked[j] && (!found || agg[j].1 > agg[best].1) {
                    best = j;
                    found = true;
                }
                j += 1;
            }
            proof {
                if !found {
                    lemma_count_all_true(picked@);
                }
                lemma_count_update(picked@, best as int);
            }
            let name = agg[best].0.clone();
            let total = agg[best].1;
            picked.set(best, true);
            res.push((name, total));
            proof {
                idx = idx.push(best as int);
                pos = pos.update(best as int, res@.len() - 1);
            }
        }
        proof {
            let b = board_view(res@);
            assert forall|i: int| 0 <= i < b.len() implies ps.contains(#[trigger] b[i].0) && b[i].1
                == total_score(s, b[i].0) by {
                assert(ps[idx[i]] == b[i].0);
            }
            assert forall|i: int, j: int| 0 <= i < j < b.len() implies b[i].0 != b[j].0 && b[i].1
                >= b[j].1 by {
                assert(ps[idx[i]] == b[i].0);
                assert(ps[idx[j]] == b[j].0);
            }
            assert forall|k: int, i: int|
                0 <= k < ps.len() && 0 <= i < b.len() && (forall|t: int|
                    0 <= t < b.len() ==> b[t].0 != ps[k]) implies total_score(s, #[trigger] ps[k])
                <= #[trigger] b[i].1 by {
                if picked@[k] {
                    assert(b[pos[k]].0 == ps[k]);
                }
                assert(agg@[k].1 <= res@[i].1);
            }
        }
        Some(res)
    }

    /// Whether `init` has run.
    pub fn is_initialized(&self) -> (r: bool)
        ensures
            r == self@.initialized,
    {
        self.initialized
    }

    /// The recorded scores, oldest first.
    pub fn scores(&self) -> (r: &Vec<GameScore>)
        ensures
            r@.map_values(|g: GameScore| g@) == self@.scores,
    {
        &self.scores
    }
}

} // verus!
