use vstd::prelude::*;

pub mod tables;
pub mod team;
pub mod listing;
pub mod text;

use crate::standings::team::{
    fields_of, lemma_team_line_round_trip, parse_team, team_line, team_line_fields, team_to_line,
    TeamFields, TeamLineError, TeamStats,
};
use crate::standings::tables::{find_team, game_applied, game_fits, Side, Table};
use crate::standings::text::{
    chars_of, free_of, i32_of, parse_i32, split_by, split_chars, string_of, trim_chars, trimmed, views_of,
};

verus! {

/// What is wrong with a line that should describe a game, `home-away;goals-goals`.
#[derive(Clone, Copy, Debug, PartialEq, Eq, Structural)]
pub enum ResultLineError {
    /// The line is not two parts separated by `;`.
    ResultFormat,
    /// The teams or the score are not two parts separated by `-`.
    ScoreFormat,
    /// That side's team is not in the table.
    UnknownTeam(Side),
    /// That side's goals are not an integer.
    BadScore(Side),
    /// A counter of a team would overflow.
    Overflow,
}

impl ResultLineError {
    /// The message shown for this error.
    pub open spec fn text(self) -> &'static str {
        match self {
            ResultLineError::ResultFormat => "Invalid result format.",
            ResultLineError::ScoreFormat => "Invalid score format.",
            ResultLineError::UnknownTeam(Side::Home) => "Home team does not exist.",
            ResultLineError::UnknownTeam(Side::Away) => "Away team does not exist",
            ResultLineError::BadScore(Side::Home) => "Cannot parse home team score.",
            ResultLineError::BadScore(Side::Away) => "Cannot parse the away team score.",
            ResultLineError::Overflow => "A team's totals would overflow.",
        }
    }

    /// The message shown for this error.
    pub fn message(&self) -> (r: &'static str)
        ensures
            r == self.text(),
    {
        match self {
            ResultLineError::ResultFormat => "Invalid result format.",
            ResultLineError::ScoreFormat => "Invalid score format.",
            ResultLineError::UnknownTeam(Side::Home) => "Home team does not exist.",
            ResultLineError::UnknownTeam(Side::Away) => "Away team does not exist",
            ResultLineError::BadScore(Side::Home) => "Cannot parse home team score.",
            ResultLineError::BadScore(Side::Away) => "Cannot parse the away team score.",
            ResultLineError::Overflow => "A team's totals would overflow.",
        }
    }
}

/// A game read from a result line.
pub struct MatchResult {
    pub home_team: String,
    pub away_team: String,
    pub home_goals: i32,
    pub away_goals: i32,
}

/// The game that line `s` records against the teams `teams`, as home name,
/// away name, home goals and away goals; or the first thing wrong with it.
pub open spec fn result_line_game(s: Seq<char>, teams: Seq<TeamStats>) -> Result<
    (Seq<char>, Seq<char>, i32, i32),
    ResultLineError,
> {
    let parts = split_by(s, ';');
    if parts.len() != 2 {
        Err(ResultLineError::ResultFormat)
    } else {
        let names = split_by(parts[0], '-');
        let goals = split_by(parts[1], '-');
        if names.len() != 2 || goals.len() != 2 {
            Err(ResultLineError::ScoreFormat)
        } else {
            let home = trimmed(names[0]);
            let away = trimmed(names[1]);
            if find_team(teams, home) is None {
                Err(ResultLineError::UnknownTeam(Side::Home))
            } else if find_team(teams, away) is None {
                Err(ResultLineError::UnknownTeam(Side::Away))
            } else if i32_of(trimmed(goals[0])) is None {
                Err(ResultLineError::BadScore(Side::Home))
            } else if i32_of(trimmed(goals[1])) is None {
                Err(ResultLineError::BadScore(Side::Away))
            } else {
                let hg = i32_of(trimmed(goals[0]))->Some_0;
                let ag = i32_of(trimmed(goals[1]))->Some_0;
                if !game_fits(teams, home, away, hg, ag) {
                    Err(ResultLineError::Overflow)
                } else {
                    Ok((home, away, hg, ag))
                }
            }
        }
    }
}

/// Reads a result line `home-away;goals-goals` and records the game in the
/// table. A line that is malformed, names a team not in the table or has a
/// score that is not an integer leaves the table as it was.
pub fn parse_result(result_str: &String, table: &mut Table) -> (r: Result<MatchResult, ResultLineError>)
    ensures
        match result_line_game(result_str@, old(table).teams@) {
            Ok(g) => {
                &&& r is Ok
                &&& r->Ok_0.home_team@ == g.0
                &&& r->Ok_0.away_team@ == g.1
                &&& r->Ok_0.home_goals == g.2
                &&& r->Ok_0.away_goals == g.3
                &&& final(table).teams@ == game_applied(old(table).teams@, g.0, g.1, g.2, g.3).0
            },
            Err(e) => r == Err::<MatchResult, ResultLineError>(e) && final(table).teams@ == old(
                table,
            ).teams@,
        },
{
    let chars = chars_of(result_str.as_str());
    let parts = split_chars(&chars, ';');
    if parts.len() != 2 {
        return Err(ResultLineError::ResultFormat);
    }
    proof {
        assert(views_of(parts@)[0] == parts@[0]@);
        assert(views_of(parts@)[1] == parts@[1]@);
    }
    let names = split_chars(&parts[0], '-');
    let goals = split_chars(&parts[1], '-');
    if names.len() != 2 || goals.len() != 2 {
        return Err(ResultLineError::ScoreFormat);
    }
    proof {
        assert(views_of(names@)[0] == names@[0]@);
        assert(views_of(names@)[1] == names@[1]@);
        assert(views_of(goals@)[0] == goals@[0]@);
        assert(views_of(goals@)[1] == goals@[1]@);
    }
    let home_team = string_of(trim_chars(&names[0]).as_slice());
    let away_team = string_of(trim_chars(&names[1]).as_slice());
    if !table.has_team(home_team.as_str()) {
        return Err(ResultLineError::UnknownTeam(Side::Home));
    }
    if !table.has_team(away_team.as_str()) {
        return Err(ResultLineError::UnknownTeam(Side::Away));
    }
    let home_goals = match parse_i32(&trim_chars(&goals[0])) {
        Some(v) => v,
        None => return Err(ResultLineError::BadScore(Side::Home)),
    };
    let away_goals = match parse_i32(&trim_chars(&goals[1])) {
        Some(v) => v,
        None => return Err(ResultLineError::BadScore(Side::Away)),
    };
    if !table.can_add_game(home_team.as_str(), away_team.as_str(), home_goals, away_goals) {
        return Err(ResultLineError::Overflow);
    }
    let _ = table.add_game(home_team.as_str(), away_team.as_str(), home_goals, away_goals);
    Ok(MatchResult { home_team, away_team, home_goals, away_goals })
}

/// The lines that store the teams of `s`, in order.
pub open spec fn table_lines(s: Seq<TeamStats>) -> Seq<Seq<char>> {
    s.map_values(|t: TeamStats| team_line(t))
}

/// The characters of each line.
pub open spec fn line_views(lines: Seq<String>) -> Seq<Seq<char>> {
    lines.map_values(|l: String| l@)
}

/// The errors of the lines that do not describe a team, in line order.
pub open spec fn line_errors(lines: Seq<Seq<char>>) -> Seq<TeamLineError>
    decreases lines.len(),
{
    if lines.len() == 0 {
        Seq::<TeamLineError>::empty()
    } else {
        let e = line_errors(lines.drop_last());
        match team_line_fields(lines.last()) {
            Ok(_) => e,
            Err(x) => e.push(x),
        }
    }
}

impl Table {
    /// The table as text, one line per team in table order:
    /// `name;played;wins;draws;defeats;scored;conceded`.
    pub fn to_lines(&self) -> (r: Vec<String>)
        ensures
            line_views(r@) == table_lines(self.teams@),
    {
        let mut lines: Vec<String> = Vec::new();
        let mut i: usize = 0;
        while i < self.teams.len()
            invariant
                i <= self.teams@.len(),
                lines@.len() == i,
                line_views(lines@) == table_lines(self.teams@.subrange(0, i as int)),
            decreases self.teams@.len() - i,
        {
            let line = team_to_line(&self.teams[i]);
            let ghost prev = lines@;
            lines.push(line);
            i += 1;
            proof {
                let want = table_lines(self.teams@.subrange(0, i as int));
                assert forall|j: int| 0 <= j < i implies line_views(lines@)[j] == want[j] by {
                    if j < i - 1 {
                        assert(lines@[j] == prev[j]);
                        assert(line_views(prev)[j] == table_lines(
                            self.teams@.subrange(0, i - 1),
                        )[j]);
                    }
                }
                assert(line_views(lines@) =~= want);
            }
        }
        assert(self.teams@.subrange(0, i as int) =~= self.teams@);
        lines
    }
}

/// Reads a table from its lines, all or nothing: every line must describe a
/// team, else the errors of the lines that do not are returned, in order.
pub fn table_from_lines(lines: &Vec<String>) -> (r: Result<Table, Vec<TeamLineError>>)
    ensures
        match r {
            Ok(t) => {
                &&& line_errors(line_views(lines@)).len() == 0
                &&& t.teams@.len() == lines@.len()
                &&& forall|i: int|
                    0 <= i < lines@.len() ==> team_line_fields(#[trigger] lines@[i]@) == Ok::<
                        TeamFields,
                        TeamLineError,
                    >(fields_of(t.teams@[i])) && t.teams@[i].goal_difference == 0
                        && t.teams@[i].points == 0
            },
            Err(es) => es@ == line_errors(line_views(lines@)) && es@.len() > 0,
        },
{
    let ghost views = line_views(lines@);
    let mut teams: Vec<TeamStats> = Vec::new();
    let mut errors: Vec<TeamLineError> = Vec::new();
    let mut i: usize = 0;
    while i < lines.len()
        invariant
            i <= lines@.len(),
            views == line_views(lines@),
            errors@ == line_errors(views.subrange(0, i as int)),
            errors@.len() == 0 ==> teams@.len() == i,
            errors@.len() == 0 ==> forall|j: int|
                0 <= j < i ==> team_line_fields(#[trigger] lines@[j]@) == Ok::<
                    TeamFields,
                    TeamLineError,
                >(fields_of(teams@[j])) && teams@[j].goal_difference == 0 && teams@[j].points
                    == 0,
        decreases lines@.len() - i,
    {
        let ghost pre = views.subrange(0, i as int);
        let ghost next = views.subrange(0, i + 1);
        assert(next.drop_last() =~= pre);
        assert(next.last() == lines@[i as int]@);
        match parse_team(lines[i].as_str()) {
            Ok(t) => teams.push(t),
            Err(e) => errors.push(e),
        }
        i += 1;
    }
    assert(views.subrange(0, i as int) =~= views);
    if errors.len() > 0 {
        Err(errors)
    } else {
        Ok(Table { teams })
    }
}

/// Writing a table as lines and reading the lines back gives every team's
/// name and counters, in order, for names without `;` and without white
/// space at their ends.
pub proof fn lemma_table_lines_round_trip(s: Seq<TeamStats>)
    requires
        forall|i: int|
            0 <= i < s.len() ==> free_of(#[trigger] s[i].name@, ';') && trimmed(s[i].name@)
                == s[i].name@,
    ensures
        forall|i: int|
            0 <= i < s.len() ==> team_line_fields(table_lines(s)[i]) == Ok::<
                TeamFields,
                TeamLineError,
            >(fields_of(#[trigger] s[i])),
        line_errors(table_lines(s)).len() == 0,
    decreases s.len(),
{
    assert forall|i: int| 0 <= i < s.len() implies team_line_fields(
        table_lines(s)[i],
    ) == Ok::<TeamFields, TeamLineError>(fields_of(s[i])) by {
        lemma_team_line_round_trip(s[i]);
    }
    if s.len() > 0 {
        lemma_table_lines_round_trip(s.drop_last());
        assert(table_lines(s).drop_last() =~= table_lines(s.drop_last()));
        lemma_team_line_round_trip(s.last());
    }
}

} // verus!
