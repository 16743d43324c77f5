use vstd::prelude::*;

use crate::standings::text::{
    chars_of, decimal_of, free_of, i32_of, lemma_i32_round_trip, lemma_split_join,
    lemma_split_single, lemma_u8_round_trip, parse_i32, parse_u8, push_decimal,
    push_signed_decimal, signed_decimal_of, split_by, split_chars, string_of, trim_chars, trimmed,
    u8_of,
};

verus! {

/// One team's name and accumulated results. `played`, `goal_difference` and
/// `points` are derived: `calc_stats` brings them up to date.
#[derive(Debug)]
pub struct TeamStats {
    pub name: String,
    pub played: u8,
    pub wins: u8,
    pub draws: u8,
    pub defeats: u8,
    pub goal_scored: i32,
    pub goal_against: i32,
    pub goal_difference: i32,
    pub points: u8,
}

/// Games played, counted from the outcomes.
pub open spec fn played_of(t: TeamStats) -> int {
    t.wins + t.draws + t.defeats
}

/// Three points for a win, one for a draw.
pub open spec fn points_of(t: TeamStats) -> int {
    t.wins * 3 + t.draws
}

/// Goals scored minus goals conceded.
pub open spec fn goal_difference_of(t: TeamStats) -> int {
    t.goal_scored - t.goal_against
}

/// The derived fields fit in their integer types.
pub open spec fn can_calc(t: TeamStats) -> bool {
    &&& played_of(t) <= u8::MAX
    &&& points_of(t) <= u8::MAX
    &&& i32::MIN <= goal_difference_of(t) <= i32::MAX
}

/// The derived fields agree with the counters.
pub open spec fn stats_consistent(t: TeamStats) -> bool {
    &&& t.played == played_of(t)
    &&& t.points == points_of(t)
    &&& t.goal_difference == goal_difference_of(t)
}

/// `t` with its derived fields brought up to date (where they fit).
pub open spec fn calculated(t: TeamStats) -> TeamStats {
    TeamStats {
        played: played_of(t) as u8,
        points: points_of(t) as u8,
        goal_difference: goal_difference_of(t) as i32,
        ..t
    }
}

/// Goals can be added to `t`'s totals without leaving `i32`.
pub open spec fn can_add_goals(t: TeamStats, goal_scored: i32, goal_conceded: i32) -> bool {
    &&& i32::MIN <= t.goal_scored + goal_scored <= i32::MAX
    &&& i32::MIN <= t.goal_against + goal_conceded <= i32::MAX
}

/// `t` after one more game of the given outcome and score; derived fields untouched.
pub open spec fn with_game(t: TeamStats, outcome: Outcome, goal_scored: i32, goal_conceded: i32) -> TeamStats {
    TeamStats {
        wins: if outcome == Outcome::Win { (t.wins + 1) as u8 } else { t.wins },
        draws: if outcome == Outcome::Draw { (t.draws + 1) as u8 } else { t.draws },
        defeats: if outcome == Outcome::Defeat { (t.defeats + 1) as u8 } else { t.defeats },
        goal_scored: (t.goal_scored + goal_scored) as i32,
        goal_against: (t.goal_against + goal_conceded) as i32,
        ..t
    }
}

/// The result of one game from one side's point of view.
#[derive(Clone, Copy, Debug, PartialEq, Eq, Structural)]
pub enum Outcome {
    Win,
    Draw,
    Defeat,
}

/// The outcome for the side that scored `scored` and conceded `conceded`.
pub open spec fn outcome_of(scored: int, conceded: int) -> Outcome {
    if scored > conceded {
        Outcome::Win
    } else if scored < conceded {
        Outcome::Defeat
    } else {
        Outcome::Draw
    }
}

/// The counter that a game of `outcome` raises is below its maximum.
pub open spec fn can_add_outcome(t: TeamStats, outcome: Outcome) -> bool {
    match outcome {
        Outcome::Win => t.wins < u8::MAX,
        Outcome::Draw => t.draws < u8::MAX,
        Outcome::Defeat => t.defeats < u8::MAX,
    }
}

impl TeamStats {
    /// Recomputes games played, goal difference and points from the counters.
    pub fn calc_stats(&mut self)
        requires
            can_calc(*old(self)),
        ensures
            *final(self) == calculated(*old(self)),
            stats_consistent(*final(self)),
    {
        self.played = self.wins + self.draws + self.defeats;
        self.goal_difference = self.goal_scored - self.goal_against;
        self.points = self.wins * 3 + self.draws;
    }

    fn update_goals(&mut self, goal_scored: i32, goal_conceded: i32)
        requires
            can_add_goals(*old(self), goal_scored, goal_conceded),
        ensures
            *final(self) == (TeamStats {
                goal_scored: (old(self).goal_scored + goal_scored) as i32,
                goal_against: (old(self).goal_against + goal_conceded) as i32,
                ..*old(self)
            }),
    {
        self.goal_scored += goal_scored;
        self.goal_against += goal_conceded;
    }

    /// Records a won game with its score.
    pub fn add_win(&mut self, goal_scored: i32, goal_conceded: i32)
        requires
            can_add_outcome(*old(self), Outcome::Win),
            can_add_goals(*old(self), goal_scored, goal_conceded),
        ensures
            *final(self) == with_game(*old(self), Outcome::Win, goal_scored, goal_conceded),
    {
        self.wins += 1;
        self.update_goals(goal_scored, goal_conceded);
    }

    /// Records a drawn game with its score.
    pub fn add_draw(&mut self, goal_scored: i32, goal_conceded: i32)
        requires
            can_add_outcome(*old(self), Outcome::Draw),
            can_add_goals(*old(self), goal_scored, goal_conceded),
        ensures
            *final(self) == with_game(*old(self), Outcome::Draw, goal_scored, goal_conceded),
    {
        self.draws += 1;
        self.update_goals(goal_scored, goal_conceded);
    }

    /// Records a lost game with its score.
    pub fn add_defeat(&mut self, goal_scored: i32, goal_conceded: i32)
        requires
            can_add_outcome(*old(self), Outcome::Defeat),
            can_add_goals(*old(self), goal_scored, goal_conceded),
        ensures
            *final(self) == with_game(*old(self), Outcome::Defeat, goal_scored, goal_conceded),
    {
        self.defeats += 1;
        self.update_goals(goal_scored, goal_conceded);
    }
}

/// A record with an empty name and every counter at zero.
pub open spec fn is_blank(t: TeamStats) -> bool {
    &&& t.played == 0 && t.wins == 0 && t.draws == 0 && t.defeats == 0
    &&& t.goal_scored == 0 && t.goal_against == 0
    &&& t.goal_difference == 0 && t.points == 0
}

/// A fresh record: empty name, all counters zero.
pub fn create_team_template() -> (r: TeamStats)
    ensures
        r.name@ == Seq::<char>::empty(),
        is_blank(r),
{
    TeamStats {
        name: String::new(),
        played: 0,
        wins: 0,
        draws: 0,
        defeats: 0,
        goal_scored: 0,
        goal_against: 0,
        goal_difference: 0,
        points: 0,
    }
}

/// What is wrong with a line that should describe a team.
#[derive(Clone, Copy, Debug, PartialEq, Eq, Structural)]
pub enum TeamLineError {
    FieldCount,
    Played,
    Wins,
    Draws,
    Defeats,
    GoalsScored,
    GoalsConceded,
}

impl TeamLineError {
    /// The message shown for this error.
    pub open spec fn text(self) -> &'static str {
        match self {
            TeamLineError::FieldCount =>
                "Team line does not contain exactly seven(7) parts. Please check your table file.",
            TeamLineError::Played => "Could not parse number of played games.",
            TeamLineError::Wins => "Could not parse number of wins.",
            TeamLineError::Draws => "Could not parse number of draws.",
            TeamLineError::Defeats => "Could not parse number of defeats.",
            TeamLineError::GoalsScored => "Could not parse number of scored goals.",
            TeamLineError::GoalsConceded => "Could not parse number of conceded goals.",
        }
    }

    /// The message shown for this error.
    pub fn message(&self) -> (r: &'static str)
        ensures
            r == self.text(),
    {
        match self {
            TeamLineError::FieldCount =>
                "Team line does not contain exactly seven(7) parts. Please check your table file.",
            TeamLineError::Played => "Could not parse number of played games.",
            TeamLineError::Wins => "Could not parse number of wins.",
            TeamLineError::Draws => "Could not parse number of draws.",
            TeamLineError::Defeats => "Could not parse number of defeats.",
            TeamLineError::GoalsScored => "Could not parse number of scored goals.",
            TeamLineError::GoalsConceded => "Could not parse number of conceded goals.",
        }
    }
}

/// The stored fields of a team: name, played, wins, draws, defeats, goals
/// scored and goals conceded.
pub type TeamFields = (Seq<char>, u8, u8, u8, u8, i32, i32);

/// The `k`-th field of a team line, without surrounding white space.
pub open spec fn line_field(s: Seq<char>, k: int) -> Seq<char> {
    trimmed(split_by(s, ';')[k])
}

/// What a team line `name;played;wins;draws;defeats;scored;conceded` holds, or
/// the first thing wrong with it.
pub open spec fn team_line_fields(s: Seq<char>) -> Result<TeamFields, TeamLineError> {
    if split_by(s, ';').len() != 7 {
        Err(TeamLineError::FieldCount)
    } else if u8_of(line_field(s, 1)) is None {
        Err(TeamLineError::Played)
    } else if u8_of(line_field(s, 2)) is None {
        Err(TeamLineError::Wins)
    } else if u8_of(line_field(s, 3)) is None {
        Err(TeamLineError::Draws)
    } else if u8_of(line_field(s, 4)) is None {
        Err(TeamLineError::Defeats)
    } else if i32_of(line_field(s, 5)) is None {
        Err(TeamLineError::GoalsScored)
    } else if i32_of(line_field(s, 6)) is None {
        Err(TeamLineError::GoalsConceded)
    } else {
        Ok(
            (
                line_field(s, 0),
                u8_of(line_field(s, 1))->Some_0,
                u8_of(line_field(s, 2))->Some_0,
                u8_of(line_field(s, 3))->Some_0,
                u8_of(line_field(s, 4))->Some_0,
                i32_of(line_field(s, 5))->Some_0,
                i32_of(line_field(s, 6))->Some_0,
            ),
        )
    }
}

/// The stored fields of `t`.
pub open spec fn fields_of(t: TeamStats) -> TeamFields {
    (t.name@, t.played, t.wins, t.draws, t.defeats, t.goal_scored, t.goal_against)
}

/// Reads a team from a line `name;played;wins;draws;defeats;scored;conceded`.
/// Goal difference and points start at zero.
pub fn create_team(team_str: &String) -> (r: Result<TeamStats, &'static str>)
    ensures
        match team_line_fields(team_str@) {
            Ok(f) => r is Ok && fields_of(r->Ok_0) == f && r->Ok_0.goal_difference == 0
                && r->Ok_0.points == 0,
            Err(e) => r == Err::<TeamStats, &'static str>(e.text()),
        },
{
    match parse_team(team_str.as_str()) {
        Ok(t) => Ok(t),
        Err(e) => Err(e.message()),
    }
}

/// Reads a team from a line `name;played;wins;draws;defeats;scored;conceded`,
/// saying which field is wrong if one is.
pub fn parse_team(line: &str) -> (r: Result<TeamStats, TeamLineError>)
    ensures
        match team_line_fields(line@) {
            Ok(f) => r is Ok && fields_of(r->Ok_0) == f && r->Ok_0.goal_difference == 0
                && r->Ok_0.points == 0,
            Err(e) => r == Err::<TeamStats, TeamLineError>(e),
        },
{
    let chars = chars_of(line);
    let parts = split_chars(&chars, ';');
    proof {
        assert(parts@.len() == split_by(line@, ';').len());
    }
    if parts.len() != 7 {
        return Err(TeamLineError::FieldCount);
    }
    proof {
        assert forall|k: int| 0 <= k < 7 implies parts@[k]@ == split_by(line@, ';')[k] by {
            assert(crate::standings::text::views_of(parts@)[k] == parts@[k]@);
        }
    }
    let name = trim_chars(&parts[0]);
    let played = match parse_u8(&trim_chars(&parts[1])) {
        Some(v) => v,
        None => return Err(TeamLineError::Played),
    };
    let wins = match parse_u8(&trim_chars(&parts[2])) {
        Some(v) => v,
        None => return Err(TeamLineError::Wins),
    };
    let draws = match parse_u8(&trim_chars(&parts[3])) {
        Some(v) => v,
        None => return Err(TeamLineError::Draws),
    };
    let defeats = match parse_u8(&trim_chars(&parts[4])) {
        Some(v) => v,
        None => return Err(TeamLineError::Defeats),
    };
    let goal_scored = match parse_i32(&trim_chars(&parts[5])) {
        Some(v) => v,
        None => return Err(TeamLineError::GoalsScored),
    };
    let goal_against = match parse_i32(&trim_chars(&parts[6])) {
        Some(v) => v,
        None => return Err(TeamLineError::GoalsConceded),
    };
    Ok(
        TeamStats {
            name: string_of(name.as_slice()),
            played,
            wins,
            draws,
            defeats,
            goal_scored,
            goal_against,
            goal_difference: 0,
            points: 0,
        },
    )
}

/// The line that stores `t`: its name and six counters, separated by `;`.
pub open spec fn team_line(t: TeamStats) -> Seq<char> {
    t.name@ + seq![';'] + decimal_of(t.played as nat) + seq![';'] + decimal_of(t.wins as nat)
        + seq![';'] + decimal_of(t.draws as nat) + seq![';'] + decimal_of(t.defeats as nat)
        + seq![';'] + signed_decimal_of(t.goal_scored as int) + seq![';'] + signed_decimal_of(
        t.goal_against as int,
    )
}

/// Writes `team` as the line `name;played;wins;draws;defeats;scored;conceded`.
/// Goal difference and points are left out.
pub fn team_to_line(team: &TeamStats) -> (r: String)
    ensures
        r@ == team_line(*team),
{
    let mut out = chars_of(team.name.as_str());
    out.push(';');
    push_decimal(&mut out, team.played as u64);
    out.push(';');
    push_decimal(&mut out, team.wins as u64);
    out.push(';');
    push_decimal(&mut out, team.draws as u64);
    out.push(';');
    push_decimal(&mut out, team.defeats as u64);
    out.push(';');
    push_signed_decimal(&mut out, team.goal_scored);
    out.push(';');
    push_signed_decimal(&mut out, team.goal_against);
    assert(out@ =~= team_line(*team));
    string_of(out.as_slice())
}

/// Writing a team as a line and reading the line back gives the same name and
/// counters, for any name without `;` and without white space at its ends.
pub proof fn lemma_team_line_round_trip(t: TeamStats)
    requires
        free_of(t.name@, ';'),
        trimmed(t.name@) == t.name@,
    ensures
        team_line_fields(team_line(t)) == Ok::<TeamFields, TeamLineError>(fields_of(t)),
{
    let f1 = decimal_of(t.played as nat);
    let f2 = decimal_of(t.wins as nat);
    let f3 = decimal_of(t.draws as nat);
    let f4 = decimal_of(t.defeats as nat);
    let f5 = signed_decimal_of(t.goal_scored as int);
    let f6 = signed_decimal_of(t.goal_against as int);
    lemma_u8_round_trip(t.played);
    lemma_u8_round_trip(t.wins);
    lemma_u8_round_trip(t.draws);
    lemma_u8_round_trip(t.defeats);
    lemma_i32_round_trip(t.goal_scored);
    lemma_i32_round_trip(t.goal_against);
    let p0 = t.name@;
    let p1 = p0 + seq![';'] + f1;
    let p2 = p1 + seq![';'] + f2;
    let p3 = p2 + seq![';'] + f3;
    let p4 = p3 + seq![';'] + f4;
    let p5 = p4 + seq![';'] + f5;
    let p6 = p5 + seq![';'] + f6;
    lemma_split_single(p0, ';');
    lemma_split_join(p0, f1, ';');
    lemma_split_join(p1, f2, ';');
    lemma_split_join(p2, f3, ';');
    lemma_split_join(p3, f4, ';');
    lemma_split_join(p4, f5, ';');
    lemma_split_join(p5, f6, ';');
    assert(p6 =~= team_line(t));
    let parts = split_by(team_line(t), ';');
    assert(parts =~= seq![p0, f1, f2, f3, f4, f5, f6]);
}

/// `t` can take one more game with this score without a counter overflowing.
pub open spec fn can_record_game(t: TeamStats, scored: i32, conceded: i32) -> bool {
    &&& can_add_outcome(t, outcome_of(scored as int, conceded as int))
    &&& can_add_goals(t, scored, conceded)
}

impl TeamStats {
    /// Whether the derived fields fit in their integer types.
    pub fn can_calc_stats(&self) -> (r: bool)
        ensures
            r == can_calc(*self),
    {
        let played = self.wins as u32 + self.draws as u32 + self.defeats as u32;
        let points = self.wins as u32 * 3 + self.draws as u32;
        let diff = self.goal_scored as i64 - self.goal_against as i64;
        played <= 255 && points <= 255 && i32::MIN as i64 <= diff && diff <= i32::MAX as i64
    }

    /// Whether one more game with this score fits in the counters.
    pub fn can_record(&self, scored: i32, conceded: i32) -> (r: bool)
        ensures
            r == can_record_game(*self, scored, conceded),
    {
        let room = if scored > conceded {
            self.wins < 255
        } else if scored < conceded {
            self.defeats < 255
        } else {
            self.draws < 255
        };
        let gs = self.goal_scored as i64 + scored as i64;
        let ga = self.goal_against as i64 + conceded as i64;
        room && i32::MIN as i64 <= gs && gs <= i32::MAX as i64 && i32::MIN as i64 <= ga && ga
            <= i32::MAX as i64
    }

    /// Records one game with this score as a win, a draw or a defeat.
    pub fn record_game(&mut self, scored: i32, conceded: i32)
        requires
            can_record_game(*old(self), scored, conceded),
        ensures
            *final(self) == with_game(*old(self), outcome_of(scored as int, conceded as int), scored, conceded),
    {
        if scored > conceded {
            self.add_win(scored, conceded);
        } else if scored < conceded {
            self.add_defeat(scored, conceded);
        } else {
            self.add_draw(scored, conceded);
        }
    }

    /// A record with the same counters and an empty name.
    pub fn counters(&self) -> (r: TeamStats)
        ensures
            r == (TeamStats { name: r.name, ..*self }),
    {
        TeamStats {
            name: String::new(),
            played: self.played,
            wins: self.wins,
            draws: self.draws,
            defeats: self.defeats,
            goal_scored: self.goal_scored,
            goal_against: self.goal_against,
            goal_difference: self.goal_difference,
            points: self.points,
        }
    }
}

} // verus!
