use grid_combat::console::commands_handler;
use grid_combat::console::parse_i32;
use grid_combat::console::CommandError;
use grid_combat::console::ConsoleCommand;

fn run(line: &str) -> Result<ConsoleCommand, CommandError> {
    commands_handler(line.as_bytes())
}

#[test]
fn bare_commands_parse() {
    assert_eq!(run("clear"), Ok(ConsoleCommand::Clear));
    assert_eq!(run("help"), Ok(ConsoleCommand::Help));
    assert_eq!(run("motd"), Ok(ConsoleCommand::Motd));
    assert_eq!(run("  help  "), Ok(ConsoleCommand::Help), "surrounding whitespace is trimmed");
}

#[test]
fn empty_and_unknown_lines() {
    assert_eq!(run(""), Err(CommandError::Empty));
    assert_eq!(run("dance"), Err(CommandError::Unknown(b"dance".to_vec())));
    assert_eq!(run("   "), Err(CommandError::Unknown(Vec::new())), "whitespace only has no word");
    assert_eq!(
        run("helpme now"),
        Err(CommandError::Unknown(b"helpme".to_vec())),
        "the first word must match exactly"
    );
}

#[test]
fn ask_carries_the_question() {
    assert_eq!(run("ask"), Err(CommandError::MissingQuestion));
    assert_eq!(
        run("ask where is the door"),
        Ok(ConsoleCommand::Ask(b"where is the door".to_vec()))
    );
    assert_eq!(
        run("  ask who?  "),
        Ok(ConsoleCommand::Ask(b"who?".to_vec())),
        "trimming happens before the question is cut out"
    );
}

#[test]
fn go_parses_coordinates() {
    assert_eq!(run("go (3,4)"), Ok(ConsoleCommand::Go(3, 4)));
    assert_eq!(run("go (-12,0)"), Ok(ConsoleCommand::Go(-12, 0)));
    assert_eq!(run("go 7,9"), Ok(ConsoleCommand::Go(7, 9)), "parentheses are optional");
    assert_eq!(run("go (+2,+8)"), Ok(ConsoleCommand::Go(2, 8)));
}

#[test]
fn go_rejects_bad_shapes() {
    assert_eq!(run("go"), Err(CommandError::GoUsage));
    assert_eq!(run("go (1,2) now"), Err(CommandError::GoUsage), "exactly one argument");
    assert_eq!(run("go (1, 2)"), Err(CommandError::GoUsage), "a space splits the pair in two");
    assert_eq!(run("go (1;2)"), Err(CommandError::BadCoordinate));
    assert_eq!(run("go (1,2,3)"), Err(CommandError::BadCoordinate));
    assert_eq!(run("go (a,2)"), Err(CommandError::BadCoordinate));
    assert_eq!(run("go (,2)"), Err(CommandError::BadCoordinate));
    assert_eq!(run("go (99999999999,0)"), Err(CommandError::BadCoordinate), "out of i32 range");
}

#[test]
fn integer_parsing_edges() {
    let check = |text: &str| parse_i32(text.as_bytes(), 0, text.len());
    assert_eq!(check("0"), Some(0));
    assert_eq!(check("007"), Some(7));
    assert_eq!(check("2147483647"), Some(i32::MAX));
    assert_eq!(check("2147483648"), None);
    assert_eq!(check("-2147483648"), Some(i32::MIN));
    assert_eq!(check("-2147483649"), None);
    assert_eq!(check("-"), None);
    assert_eq!(check("+"), None);
    assert_eq!(check(""), None);
    assert_eq!(check("12 3"), None);
    assert_eq!(check("99999999999999999999"), None);
}
