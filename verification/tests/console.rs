use strategy::console::{ConsoleEffect, DeveloperConsole, TimeArg};
use strategy::input::Key;
use strategy::types::{Resources, WeatherKind};

fn run(console: &mut DeveloperConsole, cmd: &str, res: &mut Resources, flags: &mut (bool, bool, bool)) -> ConsoleEffect {
    let (a, b, c) = flags;
    console.execute_command(cmd, res, a, b, c)
}

#[test]
fn console_starts_closed_with_a_greeting() {
    let c = DeveloperConsole::new();
    assert!(!c.open);
    assert!(c.input.is_empty());
    assert_eq!(c.log, vec!["Console: type 'help' for commands".to_string()]);
}

#[test]
fn slash_opens_and_escape_closes() {
    let mut c = DeveloperConsole::new();
    assert!(!c.handle_key(Key::KeyA));
    assert!(c.handle_key(Key::Slash));
    assert!(c.open);
    assert!(c.input.is_empty());
    assert!(c.handle_key(Key::Escape));
    assert!(!c.open);
    c.toggle();
    assert!(c.open);
}

#[test]
fn typing_and_erasing() {
    let mut c = DeveloperConsole::new();
    c.toggle();
    for k in [Key::KeyG, Key::KeyO, Key::KeyL, Key::KeyD, Key::Space, Key::Minus, Key::Digit5, Key::Slash] {
        assert!(c.handle_key(k));
    }
    assert_eq!(c.input, "gold -5/");
    assert!(c.handle_key(Key::Backspace));
    assert_eq!(c.input, "gold -5");
    assert!(c.handle_key(Key::Enter));
    assert_eq!(c.input, "gold -5");
    assert!(!c.handle_key(Key::ArrowUp));
    let mut empty = DeveloperConsole::new();
    empty.toggle();
    assert!(empty.handle_key(Key::Backspace));
    assert!(empty.input.is_empty());
}

#[test]
fn gold_command_adds_and_reports() {
    let mut c = DeveloperConsole::new();
    let mut res = Resources::default();
    res.gold = 10;
    let mut flags = (false, false, false);
    let e = run(&mut c, "gold -25", &mut res, &mut flags);
    assert!(matches!(e, ConsoleEffect::Nothing));
    assert_eq!(res.gold, -15);
    assert_eq!(c.log[1], "> gold -25");
    assert_eq!(c.log[2], "OK: gold += -25 -> -15");
}

#[test]
fn gold_saturates_at_the_limit() {
    let mut c = DeveloperConsole::new();
    let mut res = Resources::default();
    res.gold = 2147483600;
    let mut flags = (false, false, false);
    run(&mut c, "GOLD +1000", &mut res, &mut flags);
    assert_eq!(res.gold, i32::MAX);
    assert_eq!(c.log[2], "OK: gold += 1000 -> 2147483647");
}

#[test]
fn bad_numbers_are_refused() {
    let mut c = DeveloperConsole::new();
    let mut res = Resources::default();
    let mut flags = (false, false, false);
    run(&mut c, "gold 12x", &mut res, &mut flags);
    run(&mut c, "gold 2147483648", &mut res, &mut flags);
    run(&mut c, "gold", &mut res, &mut flags);
    assert_eq!(res.gold, 0);
    assert_eq!(c.log[2], "ERR: usage gold <±N>");
    assert_eq!(c.log[4], "ERR: usage gold <±N>");
    assert_eq!(c.log[6], "ERR: usage gold <±N>");
}

#[test]
fn set_gold_sets_it() {
    let mut c = DeveloperConsole::new();
    let mut res = Resources::default();
    let mut flags = (false, false, false);
    run(&mut c, "  set   Gold -2147483648 ", &mut res, &mut flags);
    assert_eq!(res.gold, i32::MIN);
    assert_eq!(c.log[2], "OK: gold = -2147483648");
    run(&mut c, "set wood 5", &mut res, &mut flags);
    assert_eq!(c.log[4], "ERR: unknown 'set' target");
    run(&mut c, "set", &mut res, &mut flags);
    assert_eq!(c.log[6], "ERR: usage set gold <N>");
}

#[test]
fn weather_and_time_are_left_to_the_caller() {
    let mut c = DeveloperConsole::new();
    let mut res = Resources::default();
    let mut flags = (false, false, false);
    let e = run(&mut c, "weather RAIN", &mut res, &mut flags);
    assert!(matches!(e, ConsoleEffect::SetWeather(WeatherKind::Rain)));
    assert_eq!(c.log[2], "OK: weather set to RAIN");
    let e = run(&mut c, "weather hail", &mut res, &mut flags);
    assert!(matches!(e, ConsoleEffect::Nothing));
    assert_eq!(c.log[4], "ERR: usage weather <clear|rain|fog|snow>");
    let e = run(&mut c, "time Dusk", &mut res, &mut flags);
    assert!(matches!(e, ConsoleEffect::SetTime(TimeArg::Dusk)));
    match run(&mut c, "time 0.3E0", &mut res, &mut flags) {
        ConsoleEffect::SetTime(TimeArg::Fraction(s)) => assert_eq!(s, "0.3e0"),
        _ => panic!("expected a fraction"),
    }
    assert_eq!(c.log.len(), 7);
}

#[test]
fn toggles_flip_and_report() {
    let mut c = DeveloperConsole::new();
    let mut res = Resources::default();
    let mut flags = (false, false, false);
    let e = run(&mut c, "debug", &mut res, &mut flags);
    assert!(matches!(e, ConsoleEffect::ShowWeather));
    assert_eq!(c.log[2], "Debug mode: ON");
    run(&mut c, "deposits", &mut res, &mut flags);
    assert_eq!(c.log[4], "Resource deposits: ON");
    run(&mut c, "biome overlay", &mut res, &mut flags);
    assert_eq!(c.log[6], "OK: biome overlay ON");
    run(&mut c, "biome-overlay", &mut res, &mut flags);
    assert_eq!(c.log[8], "OK: biome overlay OFF");
    assert_eq!(flags, (false, true, true));
    match run(&mut c, "biome 0.4 0.6", &mut res, &mut flags) {
        ConsoleEffect::SetBiomeThresholds(a, b) => {
            assert_eq!(a, "0.4");
            assert_eq!(b, "0.6");
        },
        _ => panic!("expected thresholds"),
    }
    run(&mut c, "biome 0.4", &mut res, &mut flags);
    assert_eq!(c.log[11], "ERR: usage biome <swamp_thr rocky_thr|overlay>");
}

#[test]
fn help_unknown_and_blank_commands() {
    let mut c = DeveloperConsole::new();
    let mut res = Resources::default();
    let mut flags = (false, false, false);
    run(&mut c, "help", &mut res, &mut flags);
    assert!(c.log[2].starts_with("Commands: help, weather"));
    run(&mut c, "fly away", &mut res, &mut flags);
    assert_eq!(c.log[4], "ERR: unknown command. Type 'help'");
    run(&mut c, " \t ", &mut res, &mut flags);
    assert_eq!(c.log.len(), 5);
}

#[test]
fn backspace_takes_back_what_was_typed() {
    let mut c = DeveloperConsole::new();
    c.handle_key(Key::Slash);
    for k in [Key::KeyG, Key::Digit7] {
        c.handle_key(k);
    }
    let before = c.input.clone();
    for k in [Key::Space, Key::KeyQ, Key::Digit0] {
        assert!(c.handle_key(k));
        assert!(c.handle_key(Key::Backspace));
        assert_eq!(c.input, before);
    }
}
