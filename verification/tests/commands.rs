use httop::control::{
    command_for, command_for_line, Command, Httop, SortBy, DEFAULT_LIMIT, LIMIT_FLOOR, LIMIT_STEP,
};

#[test]
fn keys_map_to_commands() {
    assert_eq!(command_for('q'), Command::Quit);
    assert_eq!(command_for('s'), Command::Sort(SortBy::StatusCode));
    assert_eq!(command_for('p'), Command::Sort(SortBy::Path));
    assert_eq!(command_for('c'), Command::Sort(SortBy::Count));
    assert_eq!(command_for('i'), Command::Sort(SortBy::IP));
    assert_eq!(command_for('u'), Command::Sort(SortBy::UserAgent));
    assert_eq!(command_for('+'), Command::IncreaseLimit);
    assert_eq!(command_for('-'), Command::DecreaseLimit);
}

#[test]
fn other_keys_do_nothing() {
    for key in ['x', 'Q', 'S', ' ', '\n', '0', '=', '_', '\u{00e9}'] {
        assert_eq!(command_for(key), Command::Noop, "{:?}", key);
    }
}

#[test]
fn only_the_first_character_of_a_line_counts() {
    assert_eq!(command_for_line("q\n"), Some(Command::Quit));
    assert_eq!(command_for_line("quit please\n"), Some(Command::Quit));
    assert_eq!(command_for_line("sq\n"), Some(Command::Sort(SortBy::StatusCode)));
    assert_eq!(command_for_line("+++\n"), Some(Command::IncreaseLimit));
    assert_eq!(command_for_line("\n"), Some(Command::Noop));
    assert_eq!(command_for_line(" q\n"), Some(Command::Noop));
    assert_eq!(command_for_line("\u{00e9}q"), Some(Command::Noop));
    assert_eq!(command_for_line(""), None);
}

#[test]
fn only_quit_ends_the_input() {
    assert!(Command::Quit.ends_input());
    assert!(!Command::Noop.ends_input());
    assert!(!Command::IncreaseLimit.ends_input());
    assert!(!Command::DecreaseLimit.ends_input());
    assert!(!Command::Sort(SortBy::Count).ends_input());
}

#[test]
fn state_starts_with_the_defaults() {
    let app = Httop::new();
    assert_eq!(app.sort_by(), SortBy::Count);
    assert_eq!(app.display_limit(), 20);
    assert_eq!(DEFAULT_LIMIT, 20);
    assert_eq!(LIMIT_STEP, 5);
    assert_eq!(LIMIT_FLOOR, 5);
}

#[test]
fn limit_rises_in_steps_and_stops_at_the_floor() {
    let mut app = Httop::new();
    for _ in 0..3 {
        assert!(app.apply(Some(Command::IncreaseLimit)));
    }
    assert_eq!(app.display_limit(), 35);
    let mut seen = Vec::new();
    for _ in 0..10 {
        assert!(app.apply(Some(Command::DecreaseLimit)));
        seen.push(app.display_limit());
        assert!(app.display_limit() >= 5);
    }
    assert_eq!(seen, vec![30, 25, 20, 15, 10, 5, 5, 5, 5, 5]);
    assert_eq!(app.display_limit(), 5);
}

#[test]
fn sort_commands_set_the_column() {
    let mut app = Httop::new();
    for by in [SortBy::Path, SortBy::StatusCode, SortBy::IP, SortBy::UserAgent, SortBy::Count] {
        assert!(app.apply(Some(Command::Sort(by))));
        assert_eq!(app.sort_by(), by);
        assert_eq!(app.display_limit(), 20);
    }
}

#[test]
fn quit_stops_and_changes_nothing() {
    let mut app = Httop::new();
    app.apply(Some(Command::Sort(SortBy::Path)));
    app.apply(Some(Command::IncreaseLimit));
    assert!(!app.apply(Some(Command::Quit)));
    assert_eq!(app.sort_by(), SortBy::Path);
    assert_eq!(app.display_limit(), 25);
}

#[test]
fn noop_and_no_command_change_nothing() {
    let mut app = Httop::new();
    assert!(app.apply(Some(Command::Noop)));
    assert!(app.apply(None));
    assert_eq!(app.sort_by(), SortBy::Count);
    assert_eq!(app.display_limit(), 20);
}

#[test]
fn accepts_tells_when_the_limit_can_rise() {
    let app = Httop::new();
    assert!(app.accepts(&Some(Command::IncreaseLimit)));
    assert!(app.accepts(&Some(Command::DecreaseLimit)));
    assert!(app.accepts(&Some(Command::Quit)));
    assert!(app.accepts(&None));
}
