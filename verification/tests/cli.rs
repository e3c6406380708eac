use std::str::FromStr;
use wazir_drop::cli::{CliCommand, CliError, CliSession};
use wazir_drop::color::Color;
use wazir_drop::moves::{Move, ShortMove};
use wazir_drop::position::Stage;

fn line(s: &str) -> Result<CliCommand, wazir_drop::parser::ParseError> {
    CliCommand::parse_line(s.as_bytes())
}

fn text(c: &CliCommand) -> String {
    let mut out = Vec::new();
    c.write_ascii(&mut out);
    String::from_utf8(out).unwrap()
}

#[test]
fn cli_parses_commands() {
    assert!(matches!(line("Time 1500\n"), Ok(CliCommand::TimeLimit(1500))));
    assert!(matches!(line("Start\n"), Ok(CliCommand::Start)));
    assert!(matches!(line("Quit\n"), Ok(CliCommand::Quit)));
    match line("Opening AAAAAAAADDDDFFNW aaaaaaaaddddffnw\n") {
        Ok(CliCommand::Opening(moves)) => assert_eq!(moves.len(), 2),
        _ => panic!("expected an opening"),
    }
    match line("Opening\n") {
        Ok(CliCommand::Opening(moves)) => assert!(moves.is_empty()),
        _ => panic!("expected an empty opening"),
    }
    match line("a1c3\n") {
        Ok(CliCommand::OpponentMove(m)) => assert_eq!(m, ShortMove::from_str("a1c3").unwrap()),
        _ => panic!("expected a move"),
    }
}

#[test]
fn cli_rejects_bad_lines() {
    assert!(line("Time 1500").is_err());
    assert!(line("Time\n").is_err());
    assert!(line("Time 99999999999\n").is_err());
    assert!(line("Start now\n").is_err());
    assert!(line("Opening AAAA\n").is_err());
    assert!(line("hello\n").is_err());
    assert!(line("").is_err());
}

#[test]
fn cli_command_text() {
    assert_eq!(text(&CliCommand::TimeLimit(30000)), "Time 30000");
    assert_eq!(text(&CliCommand::Start), "Start");
    assert_eq!(text(&CliCommand::Quit), "Quit");
    let opening = CliCommand::Opening(vec![Move::from_str("AAAAAAAADDDDFFNW").unwrap()]);
    assert_eq!(text(&opening), "Opening AAAAAAAADDDDFFNW");
}

#[test]
fn cli_session_red_game() {
    let mut session = CliSession::new();
    let r = session.command(CliCommand::TimeLimit(2000)).unwrap();
    assert_eq!(r.time_limit, Some(2000));
    assert!(!r.ask_player);
    assert!(matches!(session.command(CliCommand::TimeLimit(10)), Err(CliError::TimeCommandTooLate)));
    let r = session.command(CliCommand::Start).unwrap();
    assert_eq!(r.create_player, Some(Color::Red));
    assert!(r.ask_player && r.start_timer);
    assert!(matches!(session.command(CliCommand::Start), Err(CliError::StartCommandTooLate)));
    assert!(matches!(
        session.command(CliCommand::Opening(vec![])),
        Err(CliError::OpeningCommandTooLate)
    ));
    let reply = session.player_move(Move::from_str("AAAAAAAADDDDFFNW").unwrap()).unwrap();
    assert_eq!(reply, ShortMove::from_str("AAAAAAAADDDDFFNW").unwrap());
    let r = session
        .command(CliCommand::OpponentMove(ShortMove::from_str("aaaaaaaaddddffnw").unwrap()))
        .unwrap();
    assert_eq!(r.create_player, None);
    assert!(r.opponent_move.is_some());
    assert_eq!(session.position().stage(), Stage::Regular);
    assert!(matches!(session.player_move(Move::from_str("A@a1").unwrap()), Err(CliError::InvalidPlayerMove(_))));
    let r = session.command(CliCommand::Quit).unwrap();
    assert!(r.quit);
}

#[test]
fn cli_session_blue_game_with_opening() {
    let mut session = CliSession::new();
    let opening = vec![Move::from_str("AAAAAAAADDDDFFNW").unwrap()];
    session.command(CliCommand::Opening(opening)).unwrap();
    assert_eq!(session.position().move_number(), 1);
    assert!(matches!(
        session.command(CliCommand::Opening(vec![])),
        Err(CliError::OpeningCommandTooLate)
    ));
    // the opponent plays red's second move? no: blue is to move, and the player is blue
    let r = session.player_move(Move::from_str("aaaaaaaaddddffnw").unwrap());
    assert!(r.is_ok());
    let r = session
        .command(CliCommand::OpponentMove(ShortMove::from_str("a1c3").unwrap()))
        .unwrap();
    assert_eq!(r.create_player, Some(Color::Blue));
    assert!(matches!(
        session.command(CliCommand::OpponentMove(ShortMove::from_str("e4e5").unwrap())),
        Err(CliError::InvalidOpponentMove(_))
    ));
}

#[test]
fn cli_session_rejects_bad_opening() {
    let mut session = CliSession::new();
    let opening = vec![Move::from_str("aaaaaaaaddddffnw").unwrap()];
    assert!(matches!(session.command(CliCommand::Opening(opening)), Err(CliError::InvalidOpeningMove(_))));
    assert_eq!(session.position().move_number(), 0);
}

#[test]
fn cli_text_reads_back() {
    let commands = vec![
        CliCommand::TimeLimit(0),
        CliCommand::TimeLimit(u32::MAX),
        CliCommand::Opening(vec![
            Move::from_str("AAAAAAAADDDDFFNW").unwrap(),
            Move::from_str("aaaaaaaaddddffnw").unwrap(),
            Move::from_str("Aa1-c3").unwrap(),
            Move::from_str("Nb8xdc6").unwrap(),
            Move::from_str("n@e4").unwrap(),
        ]),
        CliCommand::Opening(vec![]),
        CliCommand::Start,
        CliCommand::Quit,
        CliCommand::OpponentMove(ShortMove::from_str("a1c3").unwrap()),
        CliCommand::OpponentMove(ShortMove::from_str("Nd4").unwrap()),
        CliCommand::OpponentMove(ShortMove::from_str("aaaaaaaaddddffnw").unwrap()),
    ];
    for c in &commands {
        let t = text(c);
        let back = line(&format!("{t}\n")).unwrap();
        assert_eq!(text(&back), t);
    }
}
