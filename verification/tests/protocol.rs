use pijersi::result::GameResult;
use pijersi::ugi::go::{GoKind, GoSettings, Limit};
use pijersi::ugi::listen::{commands, setup, Command, Setup};
use pijersi::ugi::options::{Button, Check, Combo, Spin, Stringy};
use pijersi::ugi::result::UGIResult;
use pijersi::ugi::words::words;

fn line(text: &str) -> Vec<String> {
    words(text)
}

#[test]
fn a_line_is_split_at_white_space() {
    assert_eq!(words(""), Vec::<String>::new());
    assert_eq!(words("  \t\r\n"), Vec::<String>::new());
    assert_eq!(words("go"), ["go"]);
    assert_eq!(words("  go   depth\t3\n"), ["go", "depth", "3"]);
    assert_eq!(words("a\x0Cb\rc"), ["a", "b", "c"]);
    assert_eq!(words("position fen 6/7 w"), ["position", "fen", "6/7", "w"]);
}

#[test]
fn go_settings_are_read_word_by_word() {
    let parse = |text: &str| pijersi::ugi::go::parse(&line(text), 0);
    assert_eq!(parse(""), Some(GoSettings::default()));
    assert_eq!(parse("depth 3"), Some(GoSettings::from_depth(3)));
    assert_eq!(parse("nodes 18446744073709551615"), Some(GoSettings::from_nodes(u64::MAX)));
    assert_eq!(parse("nodes +7"), Some(GoSettings::from_nodes(7)));
    assert_eq!(parse("movetime -5"), Some(GoSettings::from_movetime(-5)));
    assert_eq!(
        parse("p1time 1 p2time 2 p1inc 3 p2inc 4"),
        Some(GoSettings::from_time(1, 2, 3, 4))
    );
    let expected = GoSettings {
        kind: GoKind::SplitPerft,
        depth: Some(2),
        movestogo: Some(9),
        ..GoSettings::default()
    };
    assert_eq!(parse("perft split this depth 1 depth 2 that movestogo 9 depth"), Some(expected));
    assert_eq!(parse("perft search"), Some(GoSettings::default()));
    assert_eq!(parse("perft").unwrap().kind, GoKind::Perft);
    // The name of a limit is not read as a number.
    assert_eq!(parse("depth depth 3"), None);
    assert_eq!(parse("depth x"), None);
    assert_eq!(parse("depth 2147483648"), None);
    assert_eq!(parse("nodes -1"), None);
    assert_eq!(parse("nodes 18446744073709551616"), None);
    // Words from a later place on.
    assert_eq!(
        pijersi::ugi::go::parse(&line("go depth 4"), 1),
        Some(GoSettings::from_depth(4))
    );
    assert_eq!(pijersi::ugi::go::parse(&line("go depth 4"), 3), Some(GoSettings::default()));
    assert_eq!(
        GoSettings::default().with(Limit::P2Inc, 8),
        GoSettings { p2inc: Some(8), ..GoSettings::default() }
    );
}

#[test]
fn go_settings_in_words() {
    assert_eq!(
        GoSettings::default().to_string(),
        "search p1time None p2time None p1inc None p2inc None depth None nodes None \
         movetime None movestogo None"
    );
    let settings = GoSettings {
        kind: GoKind::Perft,
        p1time: Some(1),
        p2time: Some(-2),
        p1inc: Some(30),
        p2inc: Some(0),
        depth: Some(5),
        nodes: Some(18446744073709551615),
        movetime: Some(i32::MIN),
        movestogo: Some(i32::MAX),
    };
    assert_eq!(
        settings.to_string(),
        "perft p1time 1 p2time -2 p1inc 30 p2inc 0 depth 5 nodes 18446744073709551615 \
         movetime -2147483648 movestogo 2147483647"
    );
    let settings = GoSettings { kind: GoKind::SplitPerft, ..GoSettings::from_nodes(0) };
    assert!(settings.to_string().starts_with("split p1time None"));
    assert!(settings.to_string().contains(" nodes 0 "));
}

#[test]
fn the_position_text_of_a_command() {
    let parse = |text: &str| pijersi::ugi::position::parse(&line(text), 0);
    assert_eq!(parse(""), (String::new(), 0));
    assert_eq!(parse("startpos moves a1a2"), ("startpos".to_string(), 1));
    assert_eq!(parse("fen"), (String::new(), 1));
    assert_eq!(parse("fen moves a1a2"), (String::new(), 1));
    assert_eq!(
        parse("fen 6/7/6/7/6/7/6   w 0 1 moves a1a2"),
        ("6/7/6/7/6/7/6 w 0 1".to_string(), 5)
    );
    assert_eq!(parse("fen 6/7/6/7/6/7/6 b"), ("6/7/6/7/6/7/6 b".to_string(), 3));
    assert_eq!(parse("elsewhere fen 6/7"), (String::new(), 1));
    assert_eq!(
        pijersi::ugi::position::parse(&line("position startpos"), 1),
        ("startpos".to_string(), 2)
    );
}

#[test]
fn the_name_and_value_of_an_option() {
    let parse = |text: &str| pijersi::ugi::setoption::parse(&line(text), 0);
    let pair = |name: &str, value: &str| Some((name.to_string(), value.to_string()));
    assert_eq!(parse("name debug value true"), (pair("debug", "true"), 4));
    assert_eq!(parse("name debug value true isready"), (pair("debug", "true"), 4));
    assert_eq!(parse(""), (None, 0));
    assert_eq!(parse("debug value true"), (None, 1));
    assert_eq!(parse("name"), (None, 1));
    assert_eq!(parse("name debug"), (None, 2));
    assert_eq!(parse("name debug true isready"), (None, 3));
    assert_eq!(parse("name debug value"), (None, 3));
    assert_eq!(parse("name value value value"), (pair("value", "value"), 4));
}

#[test]
fn the_moves_of_a_command() {
    assert_eq!(
        pijersi::ugi::moves::parse(&line("moves a1a2 b3c2c2"), 1),
        ["a1a2", "b3c2c2"]
    );
    assert_eq!(pijersi::ugi::moves::parse(&line("moves"), 1), Vec::<String>::new());
}

#[test]
fn the_commands_of_a_line() {
    let of = |text: &str| commands(&line(text));
    assert_eq!(of(""), []);
    assert_eq!(of("hello world"), []);
    assert_eq!(
        of("uginewgame isready print options stop quit isready"),
        [
            Command::NewGame,
            Command::IsReady,
            Command::Print,
            Command::Options,
            Command::Stop,
            Command::Quit
        ]
    );
    assert_eq!(
        of("query p1turn query gameover query result query other query"),
        [Command::QueryP1Turn, Command::QueryGameover, Command::QueryResult]
    );
    // The word after `query` is taken, whatever it is.
    assert_eq!(of("query isready isready"), [Command::IsReady]);
    assert_eq!(
        of("setoption name search value random isready"),
        [
            Command::SetOption("search".to_string(), "random".to_string()),
            Command::IsReady
        ]
    );
    assert_eq!(of("setoption isready print"), [Command::Print]);
    assert_eq!(
        of("position startpos moves b3c2 f3e2 quit"),
        [
            Command::Position("startpos".to_string()),
            Command::Move("b3c2".to_string()),
            Command::Move("f3e2".to_string()),
            Command::Move("quit".to_string())
        ]
    );
    assert_eq!(
        of("position fen 6/7/6/7/6/7/R-5 w 0 1"),
        [Command::Position("6/7/6/7/6/7/R-5 w 0 1".to_string())]
    );
    assert_eq!(of("position"), [Command::Position(String::new())]);
    assert_eq!(
        of("isready go depth 3 quit"),
        [Command::IsReady, Command::Go(GoSettings::from_depth(3))]
    );
    assert_eq!(of("go"), [Command::Go(GoSettings::default())]);
    assert_eq!(of("print go depth deep"), [Command::Print, Command::BadNumber]);
}

#[test]
fn a_line_before_the_engine_is_set_up() {
    let of = |text: &str| setup(&line(text));
    assert_eq!(of(""), Setup::Begin);
    assert_eq!(of("isready"), Setup::Begin);
    assert_eq!(of("quit now"), Setup::Quit);
    assert_eq!(
        of("setoption name debug value false isready"),
        Setup::SetOption(Some(("debug".to_string(), "false".to_string())))
    );
    assert_eq!(of("setoption name debug"), Setup::SetOption(None));
    assert_eq!(of("setoption"), Setup::SetOption(None));
}

#[test]
fn options_in_words() {
    let check = Check { name: "debug".to_string(), value: true };
    assert_eq!(check.to_string(), "option name debug type check default true");
    assert_eq!(Check::default().to_string(), "option name  type check default false");
    let spin = Spin { name: "hash".to_string(), min: -1, max: 1024, value: 16 };
    assert_eq!(spin.to_string(), "option name hash type spin default 16 min -1 max 1024");
    let mut combo = Combo {
        name: "search".to_string(),
        value: "alphabeta".to_string(),
        options: vec!["random".to_string(), "negamax".to_string(), "alphabeta".to_string()],
    };
    assert_eq!(
        combo.to_string(),
        "option name search type combo default alphabeta var random var negamax var alphabeta"
    );
    combo.select("negamax");
    assert_eq!(combo.value, "negamax");
    combo.select("minimax");
    assert_eq!(combo.value, "negamax");
    let none = Combo { name: "x".to_string(), value: "y".to_string(), options: vec![] };
    assert_eq!(none.to_string(), "option name x type combo default y");
    let button = Button { name: "clear".to_string() };
    assert_eq!(button.to_string(), "option name clear type button");
    assert_eq!(Stringy { name: 3 }.name, 3);
}

#[test]
fn results_by_the_names_of_the_protocol() {
    assert_eq!(UGIResult::of(GameResult::WhiteWin), UGIResult::P1win);
    assert_eq!(UGIResult::of(GameResult::BlackWin), UGIResult::P2win);
    assert_eq!(UGIResult::of(GameResult::Draw), UGIResult::Draw);
}
