use allsvenskan::commands::Commands;
use allsvenskan::standings::tables::{create_table, Side, Table};
use allsvenskan::standings::team::{create_team, parse_team, team_to_line, TeamLineError};
use allsvenskan::standings::{parse_result, table_from_lines, ResultLineError};

fn names(list: &[&str]) -> Vec<String> {
    list.iter().map(|s| String::from(*s)).collect()
}

fn table_of(lines: &[&str]) -> Table {
    let lines: Vec<String> = names(lines);
    table_from_lines(&lines).unwrap()
}

#[test]
fn calc_stats_after_mixed_games() {
    let mut t = create_team(&String::from("X;0;0;0;0;0;0")).unwrap();
    t.add_win(3, 0);
    t.add_draw(1, 1);
    t.add_defeat(0, 2);
    t.add_win(1, 0);
    t.calc_stats();
    assert_eq!(t.played, 4);
    assert_eq!(t.wins, 2);
    assert_eq!(t.points, 7);
    assert_eq!(t.goal_scored, 5);
    assert_eq!(t.goal_against, 3);
    assert_eq!(t.goal_difference, 2);
}

#[test]
fn add_game_two_one() {
    let mut table = create_table(&names(&["A", "B"]));
    assert_eq!(table.add_game("A", "B", 2, 1), Ok(()));
    assert_eq!(table.teams[0].wins, 1);
    assert_eq!(table.teams[0].goal_scored, 2);
    assert_eq!(table.teams[0].goal_against, 1);
    assert_eq!(table.teams[1].defeats, 1);
    assert_eq!(table.teams[1].goal_scored, 1);
    assert_eq!(table.teams[1].goal_against, 2);
}

#[test]
fn add_game_draw_is_symmetric() {
    let mut table = create_table(&names(&["A", "B", "C"]));
    assert_eq!(table.add_game("C", "A", 3, 3), Ok(()));
    assert_eq!(table.teams[2].draws, 1);
    assert_eq!(table.teams[0].draws, 1);
    assert_eq!(table.teams[2].goal_scored, 3);
    assert_eq!(table.teams[2].goal_against, 3);
    assert_eq!(table.teams[0].goal_scored, 3);
    assert_eq!(table.teams[0].goal_against, 3);
    assert_eq!(table.teams[1].draws, 0);
}

#[test]
fn add_game_unknown_home_changes_nothing() {
    let mut table = create_table(&names(&["A", "B"]));
    assert_eq!(table.add_game("Z", "B", 1, 0), Err(Side::Home));
    assert_eq!(table.teams[0].wins + table.teams[0].defeats, 0);
    assert_eq!(table.teams[1].wins + table.teams[1].defeats, 0);
    assert_eq!(table.teams[1].goal_scored, 0);
}

#[test]
fn add_game_unknown_away_reports_away() {
    let mut table = create_table(&names(&["A", "B"]));
    assert_eq!(table.add_game("A", "Z", 1, 0), Err(Side::Away));
    assert_eq!(table.teams[0].wins, 0);
    assert_eq!(table.teams[0].goal_scored, 0);
    assert_eq!(table.teams[1].goal_against, 0);
    assert_eq!(table.add_game("Y", "Z", 1, 0), Err(Side::Home));
    assert_eq!(table.teams[0].wins + table.teams[1].wins, 0);
}

#[test]
fn ranking_by_points() {
    let mut table = table_of(&["A;1;1;0;0;2;1", "B;1;0;0;1;0;3", "C;1;0;1;0;1;1"]);
    table.update_table();
    let points: Vec<u8> = table.teams.iter().map(|t| t.points).collect();
    assert_eq!(points, vec![3, 1, 0]);
    assert_eq!(table.teams[0].name, "A");
    assert_eq!(table.teams[1].name, "C");
    assert_eq!(table.teams[2].name, "B");
    assert_eq!(table.teams[2].played, 1);
}

#[test]
fn ranking_ties_by_goal_difference_then_order() {
    let mut table = table_of(&[
        "A;1;0;1;0;0;0",
        "B;1;0;1;0;2;2",
        "C;1;1;0;0;1;0",
        "D;1;0;1;0;5;3",
    ]);
    table.update_table();
    let order: Vec<String> = table.teams.iter().map(|t| t.name.clone()).collect();
    assert_eq!(order, names(&["C", "D", "A", "B"]));
    assert_eq!(table.teams[1].goal_difference, 2);
}

#[test]
fn ranking_empty_table() {
    let mut table = create_table(&[]);
    table.update_table();
    assert_eq!(table.teams.len(), 0);
}

#[test]
fn table_lines_round_trip() {
    let mut table = create_table(&names(&["IFK Göteborg", "Malmö FF", "AIK"]));
    table.add_game("IFK Göteborg", "AIK", 4, 0).unwrap();
    table.add_game("Malmö FF", "AIK", -3, 2).unwrap();
    table.update_table();
    let lines = table.to_lines();
    let back = table_from_lines(&lines).unwrap();
    assert_eq!(back.teams.len(), 3);
    for (a, b) in table.teams.iter().zip(back.teams.iter()) {
        assert_eq!(a.name, b.name);
        assert_eq!(a.played, b.played);
        assert_eq!(a.wins, b.wins);
        assert_eq!(a.draws, b.draws);
        assert_eq!(a.defeats, b.defeats);
        assert_eq!(a.goal_scored, b.goal_scored);
        assert_eq!(a.goal_against, b.goal_against);
    }
}

#[test]
fn team_line_text() {
    let t = create_team(&String::from("IFK Göteborg;10;5;3;2;10;-2")).unwrap();
    assert_eq!(team_to_line(&t), "IFK Göteborg;10;5;3;2;10;-2");
    let u = create_team(&String::from("X;255;0;0;0;-2147483648;2147483647")).unwrap();
    assert_eq!(team_to_line(&u), "X;255;0;0;0;-2147483648;2147483647");
}

#[test]
fn table_from_lines_reports_every_bad_line() {
    let lines = names(&["A;1;1;0;0;2;1", "B;x;0;0;1;0;3", "C;1;0", "D;1;0;1;0;1;1"]);
    let errors = table_from_lines(&lines).err().unwrap();
    assert_eq!(errors, vec![TeamLineError::Played, TeamLineError::FieldCount]);
}

#[test]
fn parse_team_trims_and_accepts_plus() {
    let t = parse_team("  Hammarby ; +7 ;1; 2 ;4;\t9; -1 ").unwrap();
    assert_eq!(t.name, "Hammarby");
    assert_eq!(t.played, 7);
    assert_eq!(t.draws, 2);
    assert_eq!(t.goal_scored, 9);
    assert_eq!(t.goal_against, -1);
    assert_eq!(t.points, 0);
}

#[test]
fn parse_team_errors() {
    assert_eq!(parse_team("A;1;1;0;0;2").err(), Some(TeamLineError::FieldCount));
    assert_eq!(parse_team("A;1;1;0;0;2;1;").err(), Some(TeamLineError::FieldCount));
    assert_eq!(parse_team("A;256;1;0;0;2;1").err(), Some(TeamLineError::Played));
    assert_eq!(parse_team("A;1;;0;0;2;1").err(), Some(TeamLineError::Wins));
    assert_eq!(parse_team("A;1;1;+;0;2;1").err(), Some(TeamLineError::Draws));
    assert_eq!(parse_team("A;1;1;0;-0;2;1").err(), Some(TeamLineError::Defeats));
    assert_eq!(parse_team("A;1;1;0;0;2147483648;1").err(), Some(TeamLineError::GoalsScored));
    assert_eq!(parse_team("A;1;1;0;0;2;1 1").err(), Some(TeamLineError::GoalsConceded));
    assert_eq!(
        create_team(&String::from("A;1;1;0;0;2")).err(),
        Some("Team line does not contain exactly seven(7) parts. Please check your table file.")
    );
}

#[test]
fn result_line_applies_game() {
    let mut table = create_table(&names(&["A", "B"]));
    let game = parse_result(&String::from(" A - B ; 2 - 1"), &mut table).unwrap();
    assert_eq!(game.home_team, "A");
    assert_eq!(game.away_team, "B");
    assert_eq!(game.home_goals, 2);
    assert_eq!(game.away_goals, 1);
    assert_eq!(table.teams[0].wins, 1);
    assert_eq!(table.teams[1].defeats, 1);
    assert_eq!(table.teams[1].goal_against, 2);
}

fn untouched(table: &Table) -> bool {
    table.teams.iter().all(|t| t.wins == 0 && t.draws == 0 && t.defeats == 0 && t.goal_scored == 0)
}

#[test]
fn result_line_bad_score_leaves_table() {
    let mut table = create_table(&names(&["A", "B"]));
    let r = parse_result(&String::from("A-B;x-1"), &mut table);
    assert_eq!(r.err(), Some(ResultLineError::BadScore(Side::Home)));
    assert!(untouched(&table));
    let r = parse_result(&String::from("A-B;1-y"), &mut table);
    assert_eq!(r.err(), Some(ResultLineError::BadScore(Side::Away)));
    assert!(untouched(&table));
}

#[test]
fn result_line_errors() {
    let mut table = create_table(&names(&["A", "B"]));
    let cases = [
        ("A-B", ResultLineError::ResultFormat),
        ("A-B;1-0;2", ResultLineError::ResultFormat),
        ("A;1-0", ResultLineError::ScoreFormat),
        ("A-B;1", ResultLineError::ScoreFormat),
        ("A-B-C;1-0", ResultLineError::ScoreFormat),
        ("Z-B;1-0", ResultLineError::UnknownTeam(Side::Home)),
        ("A-Z;1-0", ResultLineError::UnknownTeam(Side::Away)),
        ("a-B;1-0", ResultLineError::UnknownTeam(Side::Home)),
    ];
    for (line, want) in cases.iter() {
        let r = parse_result(&String::from(*line), &mut table);
        assert_eq!(r.err(), Some(*want));
        assert!(untouched(&table));
    }
    assert_eq!(ResultLineError::UnknownTeam(Side::Away).message(), "Away team does not exist");
    assert_eq!(ResultLineError::BadScore(Side::Home).message(), "Cannot parse home team score.");
}

#[test]
fn result_line_overflow() {
    let mut table = table_of(&["A;255;255;0;0;0;0", "B;0;0;0;0;0;0"]);
    let r = parse_result(&String::from("A-B;1-0"), &mut table);
    assert_eq!(r.err(), Some(ResultLineError::Overflow));
    assert_eq!(table.teams[1].defeats, 0);
    assert!(parse_result(&String::from("A-B;0-1"), &mut table).is_ok());
    assert_eq!(table.teams[0].defeats, 1);
    assert!(table.can_add_game("B", "A", 0, 0));
    assert!(!table.can_add_game("B", "A", 2147483647, 0));
}

#[test]
fn commands_from_input() {
    assert_eq!(Commands::from_string("1"), Some(Commands::PrintTable));
    assert_eq!(Commands::from_string("2"), Some(Commands::AddResult));
    assert_eq!(Commands::from_string("3"), Some(Commands::ReadResultFile));
    assert_eq!(Commands::from_string("4"), Some(Commands::ReadTableFile));
    assert_eq!(Commands::from_string("5"), Some(Commands::SaveTableToFile));
    assert_eq!(Commands::from_string("6"), Some(Commands::Exit));
    assert_eq!(Commands::from_string("7"), None);
    assert_eq!(Commands::from_string("11"), None);
    assert_eq!(Commands::from_string(""), None);
    assert_eq!(Commands::from_lowercase("6"), Some(Commands::Exit));
}

#[test]
fn render_listing() {
    let mut table = create_table(&names(&["AIK", "Malmö FF"]));
    table.add_game("Malmö FF", "AIK", 12, 0).unwrap();
    table.update_table();
    assert_eq!(table.club_column_width(), 9);
    let want = String::from("--------- Allsvenskan ------------\n")
        + "Club      G   W   D   L   GM  GC  GS   P \n"
        + "Malmö FF  1   1   0   0   12  0   12   3 \n"
        + "AIK       1   0   0   1   0   12  -12  0 \n";
    assert_eq!(table.render(), want);
}

#[test]
fn ranking_precheck() {
    let mut table = table_of(&["A;0;200;0;0;0;0"]);
    assert!(!table.can_update());
    table = table_of(&["A;0;85;0;0;0;0", "B;0;0;0;0;0;0"]);
    assert!(table.can_update());
    table.update_table();
    assert_eq!(table.teams[0].points, 255);
}
