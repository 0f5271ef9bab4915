use tictactoe::board::{Marker, Position};
use tictactoe::command::{read_command, Command};
use tictactoe::engine::find_best_move;
use tictactoe::play::{go, play_out, Reply};

fn board(notation: &str) -> Position {
    Position::from(notation).unwrap()
}

#[test]
fn go_names_the_winner_and_asks_no_move() {
    assert_eq!(go(board("x|x|x|o|o||||")), Reply::Winner(Marker::X));
    assert_eq!(go(board("x|o|x|o|x|o|x||")), Reply::Winner(Marker::X));
    assert_eq!(go(board("o|x|x||o|x|||o")), Reply::Winner(Marker::O));
}

#[test]
fn go_on_a_full_board_says_draw() {
    assert_eq!(go(board("x|o|x|x|o|o|o|x|x")), Reply::Draw);
}

#[test]
fn go_on_an_open_board_gives_the_best_move() {
    assert_eq!(
        go(Position::new()),
        Reply::Plays { player: Marker::X, eval: 0, cell: 0 }
    );
    assert_eq!(
        go(board("x|x||o|o||||")),
        Reply::Plays { player: Marker::X, eval: 92, cell: 2 }
    );
    assert_eq!(
        go(board("x|o|x|o|x|x|o||")),
        Reply::Plays { player: Marker::O, eval: 0, cell: 8 }
    );
}

#[test]
fn self_play_from_the_empty_board_is_a_draw() {
    let end = play_out(Position::new());
    assert_eq!(end.winning(), None);
    assert!(end.draw());
}

#[test]
fn self_play_move_by_move_is_a_draw() {
    let mut position = Position::new();
    let mut plies = 0;
    while position.winning().is_none() && !position.draw() {
        let (_, cell) = find_best_move(position);
        assert_eq!(position.0[cell], Marker::Empty);
        position = position.make_move(cell);
        plies += 1;
    }
    assert_eq!(plies, 9);
    assert!(position.draw());
    assert_eq!(position.0, play_out(Position::new()).0);
}

#[test]
fn self_play_from_each_first_move_is_a_draw() {
    for cell in 0..9 {
        let end = play_out(Position::new().make_move(cell));
        assert!(end.draw());
    }
}

#[test]
fn a_game_that_is_over_is_left_as_it_is() {
    let won = board("x|x|x|o|o||||");
    assert_eq!(play_out(won).0, won.0);
    let drawn = board("x|o|x|x|o|o|o|x|x");
    assert_eq!(play_out(drawn).0, drawn.0);
}

#[test]
fn a_won_game_is_played_to_the_win() {
    let end = play_out(board("x|x||o|o||||"));
    assert_eq!(end.winning(), Some(Marker::X));
    assert_eq!(end.0, board("x|x|x|o|o||||").0);
}

#[test]
fn lines_are_told_by_how_they_begin() {
    assert!(matches!(read_command("isready\n"), Command::IsReady));
    assert!(matches!(read_command("isready"), Command::IsReady));
    assert!(matches!(read_command("isreadyornot\n"), Command::IsReady));
    assert!(matches!(read_command("go\n"), Command::Go));
    assert!(matches!(read_command("go now"), Command::Go));
    assert!(matches!(read_command("self\n"), Command::SelfPlay));
    assert!(matches!(read_command("selfplay\r\n"), Command::SelfPlay));
}

#[test]
fn other_lines_ask_for_nothing() {
    assert!(matches!(read_command(""), Command::Nothing));
    assert!(matches!(read_command("\n"), Command::Nothing));
    assert!(matches!(read_command(" go\n"), Command::Nothing));
    assert!(matches!(read_command("Go\n"), Command::Nothing));
    assert!(matches!(read_command("g"), Command::Nothing));
    assert!(matches!(read_command("isread"), Command::Nothing));
    assert!(matches!(read_command("quit\n"), Command::Nothing));
    assert!(matches!(read_command("\u{e9}go"), Command::Nothing));
}

#[test]
fn a_position_line_holds_a_board() {
    match read_command("position x|o||||x||o|\n") {
        Command::SetPosition(p) => assert_eq!(p.0, board("x|o||||x||o|").0),
        _ => panic!("no board was read"),
    }
    match read_command("position\t \t||||||||\r\n") {
        Command::SetPosition(p) => assert_eq!(p.0, Position::new().0),
        _ => panic!("no board was read"),
    }
    match read_command("position x|x||||||o| and more") {
        Command::SetPosition(p) => assert_eq!(p.0, board("x|x||||||o|").0),
        _ => panic!("no board was read"),
    }
    match read_command("positions o|o|o|o|o|o|o|o|o") {
        Command::SetPosition(p) => assert_eq!(p.0, [Marker::O; 9]),
        _ => panic!("no board was read"),
    }
}

#[test]
fn a_position_line_without_a_board_asks_for_nothing() {
    assert!(matches!(read_command("position"), Command::Nothing));
    assert!(matches!(read_command("position\n"), Command::Nothing));
    assert!(matches!(read_command("position   \n"), Command::Nothing));
    assert!(matches!(read_command("position x|o\n"), Command::Nothing));
    assert!(matches!(read_command("position x|o|x|o|x|o|x|o|z\n"), Command::Nothing));
    assert!(matches!(read_command("position||||||||\n"), Command::Nothing));
    assert!(matches!(read_command("position x|o| |||x||o|\n"), Command::Nothing));
}
