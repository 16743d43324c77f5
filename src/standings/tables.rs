use vstd::prelude::*;

use crate::standings::team::{
    calculated, can_calc, can_record_game, create_team_template, is_blank,
    outcome_of, stats_consistent, with_game, Outcome, TeamStats,
};
use crate::standings::text::same_str;

verus! {

broadcast use vstd::seq_lib::to_multiset_insert, vstd::seq_lib::to_multiset_build;

/// The league table: its teams, in insertion order until ranked.
pub struct Table {
    pub teams: Vec<TeamStats>,
}

/// The side of a game whose team is not in the table.
#[derive(Clone, Copy, Debug, PartialEq, Eq, Structural)]
pub enum Side {
    Home,
    Away,
}

/// `a` ranks above `b`: more points, or as many points and a better goal difference.
pub open spec fn ranks_above(a: TeamStats, b: TeamStats) -> bool {
    ||| a.points > b.points
    ||| a.points == b.points && a.goal_difference > b.goal_difference
}

/// The first index at or after `k` of a team that `x` ranks above, or the length.
pub open spec fn rank_slot_from(s: Seq<TeamStats>, x: TeamStats, k: int) -> int
    decreases s.len() - k,
{
    if k < 0 || k >= s.len() {
        s.len() as int
    } else if ranks_above(x, s[k]) {
        k
    } else {
        rank_slot_from(s, x, k + 1)
    }
}

/// `x` placed after every team of `s` that it does not rank above.
pub open spec fn rank_insert(s: Seq<TeamStats>, x: TeamStats) -> Seq<TeamStats> {
    s.insert(rank_slot_from(s, x, 0), x)
}

/// `s` ordered by rank, teams of equal rank in their order in `s`.
pub open spec fn ranked(s: Seq<TeamStats>) -> Seq<TeamStats>
    decreases s.len(),
{
    if s.len() == 0 {
        s
    } else {
        rank_insert(ranked(s.drop_last()), s.last())
    }
}

/// No team of `s` ranks above a team before it.
pub open spec fn rank_ordered(s: Seq<TeamStats>) -> bool {
    forall|i: int, j: int| 0 <= i < j < s.len() ==> !ranks_above(#[trigger] s[j], #[trigger] s[i])
}

/// Every team of `s` with its derived fields brought up to date.
pub open spec fn all_calculated(s: Seq<TeamStats>) -> Seq<TeamStats> {
    s.map_values(|t: TeamStats| calculated(t))
}

/// The index of the first team of `s` named `name`, searching from `k`.
pub open spec fn find_from(s: Seq<TeamStats>, name: Seq<char>, k: int) -> Option<int>
    decreases s.len() - k,
{
    if k < 0 || k >= s.len() {
        None
    } else if s[k].name@ == name {
        Some(k)
    } else {
        find_from(s, name, k + 1)
    }
}

/// The index of the first team of `s` named `name`.
pub open spec fn find_team(s: Seq<TeamStats>, name: Seq<char>) -> Option<int> {
    find_from(s, name, 0)
}

/// `s` with the team at `i` credited with a game that it scored `scored` in
/// and conceded `conceded` in.
pub open spec fn credit(s: Seq<TeamStats>, i: int, scored: i32, conceded: i32) -> Seq<TeamStats> {
    s.update(i, with_game(s[i], outcome_of(scored as int, conceded as int), scored, conceded))
}

/// The team at `i` can take such a game without a counter overflowing.
pub open spec fn can_credit(s: Seq<TeamStats>, i: int, scored: i32, conceded: i32) -> bool {
    can_record_game(s[i], scored, conceded)
}

/// No counter overflows while the game is recorded.
pub open spec fn game_fits(
    s: Seq<TeamStats>,
    home: Seq<char>,
    away: Seq<char>,
    home_score: i32,
    away_score: i32,
) -> bool {
    match (find_team(s, home), find_team(s, away)) {
        (Some(h), Some(a)) => {
            &&& can_credit(s, h, home_score, away_score)
            &&& can_credit(credit(s, h, home_score, away_score), a, away_score, home_score)
        },
        _ => true,
    }
}

/// The teams after a game, and whether a side was missing. Both teams are
/// looked up first; when either is missing, nothing changes and the first
/// missing side, home before away, is reported. Otherwise the home team is
/// credited, then the away team.
pub open spec fn game_applied(
    s: Seq<TeamStats>,
    home: Seq<char>,
    away: Seq<char>,
    home_score: i32,
    away_score: i32,
) -> (Seq<TeamStats>, Result<(), Side>) {
    match find_team(s, home) {
        None => (s, Err(Side::Home)),
        Some(h) => {
            let s1 = credit(s, h, home_score, away_score);
            match find_team(s, away) {
                None => (s, Err(Side::Away)),
                Some(a) => (credit(s1, a, away_score, home_score), Ok(())),
            }
        },
    }
}

/// What a search finds is the first team with that name.
proof fn lemma_find_found(s: Seq<TeamStats>, name: Seq<char>, k: int)
    requires
        0 <= k,
    ensures
        find_from(s, name, k) matches Some(i) ==> k <= i < s.len() && s[i].name@ == name,
        find_from(s, name, k) is None ==> forall|i: int| k <= i < s.len() ==> s[i].name@ != name,
    decreases s.len() - k,
{
    if k < s.len() {
        lemma_find_found(s, name, k + 1);
    }
}

/// The slot search skips the teams that `x` does not rank above.
proof fn lemma_rank_slot(s: Seq<TeamStats>, x: TeamStats, k: int)
    requires
        0 <= k <= s.len(),
        forall|i: int| 0 <= i < k ==> !ranks_above(x, #[trigger] s[i]),
    ensures
        k <= rank_slot_from(s, x, k) <= s.len(),
        forall|i: int| 0 <= i < rank_slot_from(s, x, k) ==> !ranks_above(x, #[trigger] s[i]),
        rank_slot_from(s, x, k) < s.len() ==> ranks_above(x, s[rank_slot_from(s, x, k)]),
    decreases s.len() - k,
{
    if k < s.len() && !ranks_above(x, s[k]) {
        lemma_rank_slot(s, x, k + 1);
    }
}

/// Ranking orders the teams by points, descending, and teams with equal
/// points by goal difference, descending; it keeps exactly the same teams.
pub proof fn lemma_ranked_ordered(s: Seq<TeamStats>)
    ensures
        rank_ordered(ranked(s)),
        forall|i: int, j: int|
            0 <= i < j < ranked(s).len() ==> #[trigger] ranked(s)[i].points >= #[trigger] ranked(
                s,
            )[j].points && (ranked(s)[i].points == ranked(s)[j].points ==> ranked(s)[i].goal_difference
                >= ranked(s)[j].goal_difference),
        ranked(s).to_multiset() == s.to_multiset(),
    decreases s.len(),
{
    if s.len() > 0 {
        let r = ranked(s.drop_last());
        let x = s.last();
        lemma_ranked_ordered(s.drop_last());
        lemma_rank_slot(r, x, 0);
        let p = rank_slot_from(r, x, 0);
        let q = r.insert(p, x);
        assert forall|i: int, j: int| 0 <= i < j < q.len() implies !ranks_above(
            #[trigger] q[j],
            #[trigger] q[i],
        ) by {
            if j < p {
                assert(!ranks_above(r[j], r[i]));
            } else if j == p {
                assert(!ranks_above(x, r[i]));
            } else if i < p {
                assert(!ranks_above(r[j - 1], r[i]));
            } else if i == p {
                assert(ranks_above(x, r[p]));
                if j - 1 > p {
                    assert(!ranks_above(r[j - 1], r[p]));
                }
            } else {
                assert(!ranks_above(r[j - 1], r[i - 1]));
            }
        }
        assert(s.drop_last().push(x) =~= s);
    }
}

impl Table {
    /// Whether every team's derived fields fit, as `update_table` needs.
    pub fn can_update(&self) -> (r: bool)
        ensures
            r == forall|i: int| 0 <= i < self.teams@.len() ==> can_calc(#[trigger] self.teams@[i]),
    {
        let mut i: usize = 0;
        while i < self.teams.len()
            invariant
                i <= self.teams@.len(),
                forall|j: int| 0 <= j < i ==> can_calc(#[trigger] self.teams@[j]),
            decreases self.teams@.len() - i,
        {
            if !self.teams[i].can_calc_stats() {
                return false;
            }
            i += 1;
        }
        true
    }

    /// Whether a team named `name` is in the table.
    pub fn has_team(&self, name: &str) -> (r: bool)
        ensures
            r == find_team(self.teams@, name@) is Some,
    {
        self.team_index(name).is_some()
    }

    /// Whether `add_game` can record this game without a counter overflowing.
    pub fn can_add_game(&self, home_team: &str, away_team: &str, home_score: i32, away_score: i32) -> (r: bool)
        ensures
            r == game_fits(self.teams@, home_team@, away_team@, home_score, away_score),
    {
        let ghost s = self.teams@;
        let h = match self.team_index(home_team) {
            Some(i) => i,
            None => return true,
        };
        proof {
            lemma_find_found(s, home_team@, 0);
        }
        let a = match self.team_index(away_team) {
            Some(i) => i,
            None => return true,
        };
        proof {
            lemma_find_found(s, away_team@, 0);
        }
        if !self.teams[h].can_record(home_score, away_score) {
            return false;
        }
        if a != h {
            return self.teams[a].can_record(away_score, home_score);
        }
        let mut c = self.teams[h].counters();
        c.record_game(home_score, away_score);
        c.can_record(away_score, home_score)
    }

    /// The index of the first team named `name`.
    fn team_index(&self, name: &str) -> (r: Option<usize>)
        ensures
            r matches Some(i) ==> find_team(self.teams@, name@) == Some(i as int),
            r is None ==> find_team(self.teams@, name@) is None,
    {
        let mut i: usize = 0;
        while i < self.teams.len()
            invariant
                i <= self.teams@.len(),
                find_team(self.teams@, name@) == find_from(self.teams@, name@, i as int),
            decreases self.teams@.len() - i,
        {
            if same_str(self.teams[i].name.as_str(), name) {
                return Some(i);
            }
            i += 1;
        }
        None
    }

    /// Records a game: the home team, then the away team, is credited with a
    /// win, a draw or a defeat and with the goals from its side. When a team
    /// is not in the table, nothing changes and the missing side is reported,
    /// the home side if both are missing.
    pub fn add_game(&mut self, home_team: &str, away_team: &str, home_score: i32, away_score: i32) -> (r: Result<(), Side>)
        requires
            game_fits(old(self).teams@, home_team@, away_team@, home_score, away_score),
        ensures
            final(self).teams@ == game_applied(old(self).teams@, home_team@, away_team@, home_score, away_score).0,
            r == game_applied(old(self).teams@, home_team@, away_team@, home_score, away_score).1,
    {
        let ghost s = self.teams@;
        let h = match self.team_index(home_team) {
            Some(i) => i,
            None => return Err(Side::Home),
        };
        let a = match self.team_index(away_team) {
            Some(i) => i,
            None => return Err(Side::Away),
        };
        proof {
            lemma_find_found(s, home_team@, 0);
            lemma_find_found(s, away_team@, 0);
        }
        if home_score > away_score {
            self.teams[h].add_win(home_score, away_score);
        } else if home_score < away_score {
            self.teams[h].add_defeat(home_score, away_score);
        } else {
            self.teams[h].add_draw(home_score, away_score);
        }
        assert(self.teams@ == credit(s, h as int, home_score, away_score));
        let ghost s1 = self.teams@;
        if away_score > home_score {
            self.teams[a].add_win(away_score, home_score);
        } else if away_score < home_score {
            self.teams[a].add_defeat(away_score, home_score);
        } else {
            self.teams[a].add_draw(away_score, home_score);
        }
        assert(self.teams@ == credit(s1, a as int, away_score, home_score));
        Ok(())
    }
    /// Recomputes every team's derived fields, then orders the teams by points
    /// and then goal difference, both descending; teams equal on both keep
    /// their order.
    pub fn update_table(&mut self)
        requires
            forall|i: int| 0 <= i < old(self).teams@.len() ==> can_calc(#[trigger] old(self).teams@[i]),
        ensures
            final(self).teams@ == ranked(all_calculated(old(self).teams@)),
            rank_ordered(final(self).teams@),
            final(self).teams@.to_multiset() == all_calculated(old(self).teams@).to_multiset(),
            forall|i: int| 0 <= i < final(self).teams@.len() ==> stats_consistent(#[trigger] final(self).teams@[i]),
    {
        let ghost orig = all_calculated(self.teams@);
        let mut rest: Vec<TeamStats> = Vec::new();
        std::mem::swap(&mut rest, &mut self.teams);
        let ghost start = rest@;
        let mut sorted: Vec<TeamStats> = Vec::new();
        let n = rest.len();
        let mut done: usize = 0;
        while done < n
            invariant
                n == start.len(),
                done + rest@.len() == n,
                rest@ == start.subrange(done as int, start.len() as int),
                orig == all_calculated(start),
                forall|i: int| 0 <= i < start.len() ==> can_calc(#[trigger] start[i]),
                sorted@ == ranked(orig.subrange(0, done as int)),
                forall|i: int| 0 <= i < sorted@.len() ==> stats_consistent(#[trigger] sorted@[i]),
            decreases n - done,
        {
            let mut t = rest.remove(0);
            assert(t == start[done as int]);
            t.calc_stats();
            let mut k: usize = 0;
            while k < sorted.len() && !(t.points > sorted[k].points || (t.points == sorted[k].points
                && t.goal_difference > sorted[k].goal_difference))
                invariant
                    k <= sorted@.len(),
                    rank_slot_from(sorted@, t, 0) == rank_slot_from(sorted@, t, k as int),
                decreases sorted@.len() - k,
            {
                k += 1;
            }
            let ghost before = sorted@;
            sorted.insert(k, t);
            proof {
                let pre = orig.subrange(0, done as int);
                let post = orig.subrange(0, done + 1);
                assert(post.drop_last() =~= pre);
                assert(post.last() == t);
                assert(sorted@ == rank_insert(before, t));
                assert forall|i: int| 0 <= i < sorted@.len() implies stats_consistent(
                    #[trigger] sorted@[i],
                ) by {
                    if i < k {
                        assert(sorted@[i] == before[i]);
                    } else if i > k {
                        assert(sorted@[i] == before[i - 1]);
                    }
                }
            }
            done += 1;
            assert(rest@ =~= start.subrange(done as int, start.len() as int));
        }
        proof {
            assert(orig.subrange(0, done as int) =~= orig);
            lemma_ranked_ordered(orig);
        }
        self.teams = sorted;
    }
}

/// A table of the named teams, in the given order, each with every counter at zero.
pub fn create_table(teams: &[String]) -> (r: Table)
    ensures
        r.teams@.len() == teams@.len(),
        forall|i: int|
            0 <= i < teams@.len() ==> #[trigger] r.teams@[i].name@ == teams@[i]@ && is_blank(
                r.teams@[i],
            ),
{
    let mut current_teams: Vec<TeamStats> = Vec::new();
    let mut i: usize = 0;
    while i < teams.len()
        invariant
            i <= teams@.len(),
            current_teams@.len() == i,
            forall|j: int|
                0 <= j < i ==> #[trigger] current_teams@[j].name@ == teams@[j]@ && is_blank(
                    current_teams@[j],
                ),
        decreases teams@.len() - i,
    {
        let mut current_team = create_team_template();
        current_team.name = teams[i].clone();
        current_teams.push(current_team);
        i += 1;
    }
    Table { teams: current_teams }
}

/// A drawn game between two different teams of the table credits each with a
/// draw, the goals it scored and the same number conceded, and touches no
/// other team.
pub proof fn lemma_draw_credits_both(s: Seq<TeamStats>, home: Seq<char>, away: Seq<char>, goals: i32)
    requires
        find_team(s, home) is Some,
        find_team(s, away) is Some,
        home != away,
    ensures
        ({
            let (t, r) = game_applied(s, home, away, goals, goals);
            let h = find_team(s, home)->Some_0;
            let a = find_team(s, away)->Some_0;
            &&& r is Ok
            &&& t.len() == s.len()
            &&& t[h] == with_game(s[h], Outcome::Draw, goals, goals)
            &&& t[a] == with_game(s[a], Outcome::Draw, goals, goals)
            &&& forall|i: int| 0 <= i < s.len() && i != h && i != a ==> t[i] == s[i]
        }),
{
    lemma_find_found(s, home, 0);
    lemma_find_found(s, away, 0);
}

/// A game whose home team is not in the table changes nothing and reports
/// the home side.
pub proof fn lemma_unknown_home(s: Seq<TeamStats>, home: Seq<char>, away: Seq<char>, home_score: i32, away_score: i32)
    requires
        find_team(s, home) is None,
    ensures
        game_applied(s, home, away, home_score, away_score) == (s, Err::<(), Side>(Side::Home)),
{
}

/// A game whose home team is in the table but whose away team is not
/// changes nothing and reports the away side.
pub proof fn lemma_unknown_away(s: Seq<TeamStats>, home: Seq<char>, away: Seq<char>, home_score: i32, away_score: i32)
    requires
        find_team(s, home) is Some,
        find_team(s, away) is None,
    ensures
        game_applied(s, home, away, home_score, away_score) == (s, Err::<(), Side>(Side::Away)),
{
}

/// A game naming a team that is not in the table changes nothing, and the
/// report names a side whose team is missing.
pub proof fn lemma_unknown_team_changes_nothing(
    s: Seq<TeamStats>,
    home: Seq<char>,
    away: Seq<char>,
    home_score: i32,
    away_score: i32,
)
    requires
        find_team(s, home) is None || find_team(s, away) is None,
    ensures
        game_applied(s, home, away, home_score, away_score).0 == s,
        game_applied(s, home, away, home_score, away_score).1 == Err::<(), Side>(Side::Home)
            <==> find_team(s, home) is None,
        game_applied(s, home, away, home_score, away_score).1 == Err::<(), Side>(Side::Away)
            <==> find_team(s, home) is Some && find_team(s, away) is None,
        game_fits(s, home, away, home_score, away_score),
{
}

} // verus!
