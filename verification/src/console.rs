//! The developer console: typing a command line and carrying it out.

use vstd::prelude::*;
use crate::types::{Resources, WeatherKind};
use crate::input::Key;
use crate::text::{words, split_words, word_is, lower, parsed_i32, parse_i32, decimal, decimal_text};

verus! {

/// The developer console.
pub struct DeveloperConsole {
    pub open: bool,
    pub input: String,
    pub log: Vec<String>,
}

/// The lines of a log, as texts.
pub open spec fn texts(log: Seq<String>) -> Seq<Seq<char>> {
    log.map_values(|s: String| s@)
}

/// The character a key types into the command line, if any.
pub open spec fn typed_char(k: Key) -> Option<char> {
    match k {
        Key::Space => Some(' '),
        Key::Digit0 => Some('0'),
        Key::Digit1 => Some('1'),
        Key::Digit2 => Some('2'),
        Key::Digit3 => Some('3'),
        Key::Digit4 => Some('4'),
        Key::Digit5 => Some('5'),
        Key::Digit6 => Some('6'),
        Key::Digit7 => Some('7'),
        Key::Digit8 => Some('8'),
        Key::Digit9 => Some('9'),
        Key::Minus => Some('-'),
        Key::Equal => Some('='),
        Key::Comma => Some(','),
        Key::Period => Some('.'),
        Key::Slash => Some('/'),
        Key::Backslash => Some('\\'),
        Key::KeyA => Some('a'),
        Key::KeyB => Some('b'),
        Key::KeyC => Some('c'),
        Key::KeyD => Some('d'),
        Key::KeyE => Some('e'),
        Key::KeyF => Some('f'),
        Key::KeyG => Some('g'),
        Key::KeyH => Some('h'),
        Key::KeyI => Some('i'),
        Key::KeyJ => Some('j'),
        Key::KeyK => Some('k'),
        Key::KeyL => Some('l'),
        Key::KeyM => Some('m'),
        Key::KeyN => Some('n'),
        Key::KeyO => Some('o'),
        Key::KeyP => Some('p'),
        Key::KeyQ => Some('q'),
        Key::KeyR => Some('r'),
        Key::KeyS => Some('s'),
        Key::KeyT => Some('t'),
        Key::KeyU => Some('u'),
        Key::KeyV => Some('v'),
        Key::KeyW => Some('w'),
        Key::KeyX => Some('x'),
        Key::KeyY => Some('y'),
        Key::KeyZ => Some('z'),
        _ => None,
    }
}

/// The command line after `key`, for a console that is `open` or not:
/// Backspace erases the last character, a typing key appends its
/// character, and every other key leaves the line as it is.
pub open spec fn input_after(open: bool, input: Seq<char>, key: Key) -> Seq<char> {
    if !open || key == Key::Enter || key == Key::Escape {
        input
    } else if key == Key::Backspace {
        if input.len() > 0 {
            input.drop_last()
        } else {
            input
        }
    } else {
        match typed_char(key) {
            Some(c) => input.push(c),
            None => input,
        }
    }
}

/// With the console open, Backspace takes back the character a key just
/// typed.
pub proof fn lemma_backspace_undoes_typing(input: Seq<char>, key: Key)
    requires
        typed_char(key) is Some,
    ensures
        input_after(true, input_after(true, input, key), Key::Backspace) == input,
{
    let c = typed_char(key)->0;
    assert(key != Key::Backspace && key != Key::Enter && key != Key::Escape);
    assert(input.push(c).drop_last() =~= input);
}

fn key_text(k: Key) -> (r: Option<&'static str>)
    ensures
        match typed_char(k) {
            Some(c) => r is Some && r->0@ == seq![c],
            None => r is None,
        },
{
    proof {
        reveal_strlit(" ");
        reveal_strlit("0");
        reveal_strlit("1");
        reveal_strlit("2");
        reveal_strlit("3");
        reveal_strlit("4");
        reveal_strlit("5");
        reveal_strlit("6");
        reveal_strlit("7");
        reveal_strlit("8");
        reveal_strlit("9");
        reveal_strlit("-");
        reveal_strlit("=");
        reveal_strlit(",");
        reveal_strlit(".");
        reveal_strlit("/");
        reveal_strlit("\\");
        reveal_strlit("a");
        reveal_strlit("b");
        reveal_strlit("c");
        reveal_strlit("d");
        reveal_strlit("e");
        reveal_strlit("f");
        reveal_strlit("g");
        reveal_strlit("h");
        reveal_strlit("i");
        reveal_strlit("j");
        reveal_strlit("k");
        reveal_strlit("l");
        reveal_strlit("m");
        reveal_strlit("n");
        reveal_strlit("o");
        reveal_strlit("p");
        reveal_strlit("q");
        reveal_strlit("r");
        reveal_strlit("s");
        reveal_strlit("t");
        reveal_strlit("u");
        reveal_strlit("v");
        reveal_strlit("w");
        reveal_strlit("x");
        reveal_strlit("y");
        reveal_strlit("z");
    }
    match k {
        Key::Space => Some(" "),
        Key::Digit0 => Some("0"),
        Key::Digit1 => Some("1"),
        Key::Digit2 => Some("2"),
        Key::Digit3 => Some("3"),
        Key::Digit4 => Some("4"),
        Key::Digit5 => Some("5"),
        Key::Digit6 => Some("6"),
        Key::Digit7 => Some("7"),
        Key::Digit8 => Some("8"),
        Key::Digit9 => Some("9"),
        Key::Minus => Some("-"),
        Key::Equal => Some("="),
        Key::Comma => Some(","),
        Key::Period => Some("."),
        Key::Slash => Some("/"),
        Key::Backslash => Some("\\"),
        Key::KeyA => Some("a"),
        Key::KeyB => Some("b"),
        Key::KeyC => Some("c"),
        Key::KeyD => Some("d"),
        Key::KeyE => Some("e"),
        Key::KeyF => Some("f"),
        Key::KeyG => Some("g"),
        Key::KeyH => Some("h"),
        Key::KeyI => Some("i"),
        Key::KeyJ => Some("j"),
        Key::KeyK => Some("k"),
        Key::KeyL => Some("l"),
        Key::KeyM => Some("m"),
        Key::KeyN => Some("n"),
        Key::KeyO => Some("o"),
        Key::KeyP => Some("p"),
        Key::KeyQ => Some("q"),
        Key::KeyR => Some("r"),
        Key::KeyS => Some("s"),
        Key::KeyT => Some("t"),
        Key::KeyU => Some("u"),
        Key::KeyV => Some("v"),
        Key::KeyW => Some("w"),
        Key::KeyX => Some("x"),
        Key::KeyY => Some("y"),
        Key::KeyZ => Some("z"),
        _ => None,
    }
}

impl DeveloperConsole {
    /// A closed console with an empty command line and a greeting.
    pub fn new() -> (c: Self)
        ensures
            !c.open,
            c.input@ == Seq::<char>::empty(),
            texts(c.log@) == seq!["Console: type 'help' for commands"@],
    {
        let mut log: Vec<String> = Vec::new();
        log.push(String::from_str("Console: type 'help' for commands"));
        assert(texts(log@) =~= seq!["Console: type 'help' for commands"@]);
        DeveloperConsole { open: false, input: String::new(), log }
    }

    /// Open a closed console, close an open one.
    pub fn toggle(&mut self)
        ensures
            final(self).open == !old(self).open,
            final(self).input == old(self).input,
            final(self).log == old(self).log,
    {
        self.open = !self.open;
    }

    /// Handle a key press; true when the console takes the key. A closed
    /// console only opens on Slash; an open one takes Enter (run, done by
    /// the caller), Backspace (erase the last character), Escape (close)
    /// and the keys that type a character.
    pub fn handle_key(&mut self, key: Key) -> (r: bool)
        ensures
            final(self).log == old(self).log,
            final(self).input@ == input_after(old(self).open, old(self).input@, key),
            !old(self).open ==> if key == Key::Slash {
                r && final(self).open && final(self).input@ == old(self).input@
            } else {
                !r && final(self).open == old(self).open && final(self).input@ == old(self).input@
            },
            old(self).open ==> if key == Key::Enter {
                r && final(self).open && final(self).input@ == old(self).input@
            } else if key == Key::Backspace {
                &&& r
                &&& final(self).open
                &&& final(self).input@ == if old(self).input@.len() > 0 {
                    old(self).input@.drop_last()
                } else {
                    old(self).input@
                }
            } else if key == Key::Escape {
                r && !final(self).open && final(self).input@ == old(self).input@
            } else {
                &&& final(self).open
                &&& match typed_char(key) {
                    Some(c) => r && final(self).input@ == old(self).input@.push(c),
                    None => !r && final(self).input@ == old(self).input@,
                }
            },
    {
        if !self.open {
            if key == Key::Slash {
                self.toggle();
                return true;
            }
            return false;
        }
        if key == Key::Enter {
            return true;
        }
        if key == Key::Backspace {
            let n = self.input.as_str().unicode_len();
            if n > 0 {
                let shorter = String::from_str(self.input.as_str().substring_char(0, n - 1));
                assert(shorter@ =~= old(self).input@.drop_last());
                self.input = shorter;
            }
            return true;
        }
        if key == Key::Escape {
            self.open = false;
            return true;
        }
        match key_text(key) {
            Some(t) => {
                self.input.append(t);
                true
            },
            None => false,
        }
    }
}

// ---------------------------------------------------------------- commands

/// The time of day a `time` command asks for.
#[derive(Clone, Debug)]
pub enum TimeArg {
    Day,
    Night,
    Dawn,
    Dusk,
    /// A fraction of the day, as typed (in lower case).
    Fraction(String),
}

/// What is left for the caller to carry out after a command.
#[derive(Clone, Debug)]
pub enum ConsoleEffect {
    Nothing,
    /// Report the current weather.
    ShowWeather,
    SetWeather(WeatherKind),
    SetTime(TimeArg),
    /// New biome thresholds for swamp and rocky ground, as typed.
    SetBiomeThresholds(String, String),
}

/// The state the console commands change: gold, biome overlay, debug mode,
/// deposit display.
pub open spec fn console_state(g: i32, overlay: bool, debug: bool, deposits: bool) -> (i32, bool, bool, bool) {
    (g, overlay, debug, deposits)
}

pub open spec fn on_off(b: bool) -> Seq<char> {
    if b {
        "ON"@
    } else {
        "OFF"@
    }
}

/// `g + d` held within the range of `i32`.
pub open spec fn gold_plus(g: i32, d: i32) -> i32 {
    if g + d > i32::MAX {
        i32::MAX
    } else if g + d < i32::MIN {
        i32::MIN
    } else {
        (g + d) as i32
    }
}

/// Adding gold adds exactly, held at the ends of `i32`: within range the
/// sum itself, past either end that end; it never moves against the sign of
/// what is added; and adding an amount and then its negative gives the gold
/// back whenever the first sum stayed in range.
pub proof fn lemma_gold_adds(g: i32, d: i32)
    ensures
        i32::MIN <= g + d <= i32::MAX ==> gold_plus(g, d) == g + d,
        g + d > i32::MAX ==> gold_plus(g, d) == i32::MAX,
        g + d < i32::MIN ==> gold_plus(g, d) == i32::MIN,
        d >= 0 ==> gold_plus(g, d) >= g,
        d <= 0 ==> gold_plus(g, d) <= g,
        d > i32::MIN && i32::MIN <= g + d <= i32::MAX ==> gold_plus(gold_plus(g, d), (-d) as i32) == g,
{
}

/// The weather a word names, ignoring ASCII case.
pub open spec fn weather_named(w: Seq<char>) -> Option<WeatherKind> {
    let l = lower(w);
    if l == "clear"@ {
        Some(WeatherKind::Clear)
    } else if l == "rain"@ {
        Some(WeatherKind::Rain)
    } else if l == "fog"@ {
        Some(WeatherKind::Fog)
    } else if l == "snow"@ {
        Some(WeatherKind::Snow)
    } else {
        None
    }
}

/// The name of each weather, as the help text lists them.
pub open spec fn weather_word(k: WeatherKind) -> Seq<char> {
    match k {
        WeatherKind::Clear => "clear"@,
        WeatherKind::Rain => "rain"@,
        WeatherKind::Fog => "fog"@,
        WeatherKind::Snow => "snow"@,
    }
}

/// A word names a weather exactly when, in lower case, it is that weather's
/// name: so each weather is named by one word, and no word names two.
pub proof fn lemma_weather_words(w: Seq<char>, k: WeatherKind)
    ensures
        weather_named(w) == Some(k) <==> lower(w) == weather_word(k),
{
    reveal_strlit("clear");
    reveal_strlit("rain");
    reveal_strlit("fog");
    reveal_strlit("snow");
    assert("clear"@.len() == 5 && "rain"@.len() == 4 && "fog"@.len() == 3 && "snow"@.len() == 4);
    assert("rain"@[0] != "snow"@[0]);
    assert("clear"@ != "rain"@ && "clear"@ != "fog"@ && "clear"@ != "snow"@);
    assert("rain"@ != "fog"@ && "rain"@ != "snow"@ && "fog"@ != "snow"@);
}

/// The time of day a word asks for, given its lower-case form.
pub open spec fn time_named(l: Seq<char>, e: TimeArg) -> bool {
    if l == "day"@ {
        e is Day
    } else if l == "night"@ {
        e is Night
    } else if l == "dawn"@ {
        e is Dawn
    } else if l == "dusk"@ {
        e is Dusk
    } else {
        e matches TimeArg::Fraction(s) && s@ == l
    }
}

pub open spec fn help_text() -> Seq<char> {
    "Commands: help, weather <clear|rain|fog|snow>, gold <±N>, set gold <N>, time <day|night|dawn|dusk|<0..1>>, biome <swamp_thr rocky_thr|overlay>, biome-overlay, debug, deposits"@
}

/// The console's answer to a command of words `ws` (at least one): the
/// lines it logs after echoing the command, the state `st2` it leaves from
/// `st`, and the effect left to the caller.
pub open spec fn answer(
    ws: Seq<Seq<char>>,
    st: (i32, bool, bool, bool),
    lines: Seq<Seq<char>>,
    st2: (i32, bool, bool, bool),
    e: ConsoleEffect,
) -> bool {
    let head = lower(ws[0]);
    let (g, ov, dbg, dep) = st;
    if head == "help"@ {
        lines == seq![help_text()] && st2 == st && e is Nothing
    } else if head == "debug"@ {
        &&& st2 == (g, ov, !dbg, dep)
        &&& lines == seq!["Debug mode: "@ + on_off(!dbg)]
        &&& e is ShowWeather
    } else if head == "deposits"@ {
        &&& st2 == (g, ov, dbg, !dep)
        &&& lines == seq!["Resource deposits: "@ + on_off(!dep)]
        &&& e is Nothing
    } else if head == "weather"@ {
        &&& st2 == st
        &&& if ws.len() > 1 && weather_named(ws[1]) is Some {
            &&& lines == seq!["OK: weather set to "@ + ws[1]]
            &&& e matches ConsoleEffect::SetWeather(w) && Some(w) == weather_named(ws[1])
        } else {
            lines == seq!["ERR: usage weather <clear|rain|fog|snow>"@] && e is Nothing
        }
    } else if head == "gold"@ {
        &&& e is Nothing
        &&& if ws.len() > 1 && parsed_i32(ws[1]) is Some {
            let d = parsed_i32(ws[1])->0;
            &&& st2 == (gold_plus(g, d), ov, dbg, dep)
            &&& lines == seq!["OK: gold += "@ + decimal(d as int) + " -> "@ + decimal(gold_plus(g, d) as int)]
        } else {
            st2 == st && lines == seq!["ERR: usage gold <±N>"@]
        }
    } else if head == "set"@ {
        &&& e is Nothing
        &&& if ws.len() < 2 {
            st2 == st && lines == seq!["ERR: usage set gold <N>"@]
        } else if lower(ws[1]) == "gold"@ {
            if ws.len() > 2 && parsed_i32(ws[2]) is Some {
                let v = parsed_i32(ws[2])->0;
                st2 == (v, ov, dbg, dep) && lines == seq!["OK: gold = "@ + decimal(v as int)]
            } else {
                st2 == st && lines == seq!["ERR: usage set gold <N>"@]
            }
        } else {
            st2 == st && lines == seq!["ERR: unknown 'set' target"@]
        }
    } else if head == "time"@ {
        &&& st2 == st
        &&& if ws.len() > 1 {
            &&& lines == Seq::<Seq<char>>::empty()
            &&& e matches ConsoleEffect::SetTime(t) && time_named(lower(ws[1]), t)
        } else {
            lines == seq!["ERR: usage time <day|night|dawn|dusk|0..1>"@] && e is Nothing
        }
    } else if head == "biome"@ {
        if ws.len() > 1 && lower(ws[1]) == "overlay"@ {
            &&& st2 == (g, !ov, dbg, dep)
            &&& lines == seq!["OK: biome overlay "@ + on_off(!ov)]
            &&& e is Nothing
        } else if ws.len() > 2 {
            &&& st2 == st
            &&& lines == Seq::<Seq<char>>::empty()
            &&& e matches ConsoleEffect::SetBiomeThresholds(a, b) && a@ == ws[1] && b@ == ws[2]
        } else {
            st2 == st && lines == seq!["ERR: usage biome <swamp_thr rocky_thr|overlay>"@] && e is Nothing
        }
    } else if head == "biome_overlay"@ || head == "biomeoverlay"@ || head == "biome-overlay"@ {
        &&& st2 == (g, !ov, dbg, dep)
        &&& lines == seq!["OK: biome overlay "@ + on_off(!ov)]
        &&& e is Nothing
    } else {
        st2 == st && lines == seq!["ERR: unknown command. Type 'help'"@] && e is Nothing
    }
}

/// A line made of two texts.
fn joined(a: &str, b: &str) -> (r: String)
    ensures
        r@ == a@ + b@,
{
    let mut s = String::from_str(a);
    s.append(b);
    s
}

/// The text of a word.
fn word_text(w: &Vec<char>) -> (r: String)
    ensures
        r@ == w@,
{
    let mut s = String::new();
    let mut i: usize = 0;
    while i < w.len()
        invariant
            i <= w.len(),
            s@ == w@.take(i as int),
        decreases w.len() - i,
    {
        let mut buf = String::new();
        push_char(&mut buf, w[i]);
        s.append(buf.as_str());
        assert(w@.take(i + 1) =~= w@.take(i as int).push(w@[i as int]));
        i += 1;
    }
    assert(w@.take(w.len() as int) =~= w@);
    s
}

/// The word in ASCII lower case.
fn lowered(w: &Vec<char>) -> (r: Vec<char>)
    ensures
        r@ == lower(w@),
{
    let mut out: Vec<char> = Vec::new();
    let mut i: usize = 0;
    while i < w.len()
        invariant
            i <= w.len(),
            out@ == lower(w@.take(i as int)),
        decreases w.len() - i,
    {
        out.push(crate::text::lower_char(w[i]));
        assert(lower(w@.take(i + 1)) =~= lower(w@.take(i as int)).push(crate::text::ascii_lower(w@[i as int])));
        i += 1;
    }
    assert(w@.take(w.len() as int) =~= w@);
    out
}

/// `String::push`: the character appended at the end.
#[verifier::external_body]
fn push_char(s: &mut String, c: char)
    ensures
        final(s)@ == old(s)@.push(c),
{
    s.push(c)
}

impl DeveloperConsole {
    fn log_line(&mut self, line: String)
        ensures
            final(self).open == old(self).open,
            final(self).input == old(self).input,
            texts(final(self).log@) == texts(old(self).log@).push(line@),
    {
        let ghost before = texts(self.log@);
        self.log.push(line);
        assert(texts(self.log@) =~= before.push(line@));
    }

    /// Carry out a command line. A blank line does nothing; otherwise the
    /// line is echoed and answered (see `answer`); effects on the weather,
    /// the clock and the biome thresholds are left to the caller.
    pub fn execute_command(
        &mut self,
        cmd: &str,
        resources: &mut Resources,
        biome_overlay_debug: &mut bool,
        biome_debug_mode: &mut bool,
        show_deposits: &mut bool,
    ) -> (e: ConsoleEffect)
        ensures
            final(self).open == old(self).open,
            final(self).input == old(self).input,
            *final(resources) == (Resources { gold: final(resources).gold, ..*old(resources) }),
            words(cmd@).len() == 0 ==> {
                &&& final(self).log == old(self).log
                &&& *final(resources) == *old(resources)
                &&& *final(biome_overlay_debug) == *old(biome_overlay_debug)
                &&& *final(biome_debug_mode) == *old(biome_debug_mode)
                &&& *final(show_deposits) == *old(show_deposits)
                &&& e is Nothing
            },
            words(cmd@).len() > 0 ==> exists|lines: Seq<Seq<char>>|
                {
                    &&& #[trigger] answer(
                        words(cmd@),
                        console_state(
                            old(resources).gold,
                            *old(biome_overlay_debug),
                            *old(biome_debug_mode),
                            *old(show_deposits),
                        ),
                        lines,
                        console_state(
                            final(resources).gold,
                            *final(biome_overlay_debug),
                            *final(biome_debug_mode),
                            *final(show_deposits),
                        ),
                        e,
                    )
                    &&& texts(final(self).log@) == texts(old(self).log@).push("> "@ + cmd@) + lines
                },
    {
        let ws = split_words(cmd);
        let ghost wv = ws@.map_values(|w: Vec<char>| w@);
        assert(wv.len() == ws.len());
        if ws.len() == 0 {
            return ConsoleEffect::Nothing;
        }
        let ghost log0 = texts(self.log@);
        self.log_line(joined("> ", cmd));
        let ghost log1 = texts(self.log@);
        let ghost mut lines: Seq<Seq<char>> = Seq::empty();
        let ghost st = console_state(resources.gold, *biome_overlay_debug, *biome_debug_mode, *show_deposits);
        assert(wv[0] == ws@[0]@);
        assert(ws.len() > 1 ==> wv[1] == ws@[1]@);
        assert(ws.len() > 2 ==> wv[2] == ws@[2]@);
        let head = &ws[0];
        let e: ConsoleEffect;
        if word_is(head, "help") {
            self.log_line(String::from_str(
                "Commands: help, weather <clear|rain|fog|snow>, gold <±N>, set gold <N>, time <day|night|dawn|dusk|<0..1>>, biome <swamp_thr rocky_thr|overlay>, biome-overlay, debug, deposits",
            ));
            e = ConsoleEffect::Nothing;
            proof {
                lines = seq![help_text()];
            }
            assert(texts(self.log@) == log0.push("> "@ + cmd@) + lines);
        } else if word_is(head, "debug") {
            *biome_debug_mode = !*biome_debug_mode;
            let line = joined("Debug mode: ", if *biome_debug_mode { "ON" } else { "OFF" });
            let ghost l = line@;
            self.log_line(line);
            e = ConsoleEffect::ShowWeather;
            proof {
                lines = seq![l];
            }
            assert(texts(self.log@) == log0.push("> "@ + cmd@) + lines);
        } else if word_is(head, "deposits") {
            *show_deposits = !*show_deposits;
            let line = joined("Resource deposits: ", if *show_deposits { "ON" } else { "OFF" });
            let ghost l = line@;
            self.log_line(line);
            e = ConsoleEffect::Nothing;
            proof {
                lines = seq![l];
            }
            assert(texts(self.log@) == log0.push("> "@ + cmd@) + lines);
        } else if word_is(head, "weather") {
            let mut w: Option<WeatherKind> = None;
            if ws.len() > 1 {
                let arg = &ws[1];
                if word_is(arg, "clear") {
                    w = Some(WeatherKind::Clear);
                } else if word_is(arg, "rain") {
                    w = Some(WeatherKind::Rain);
                } else if word_is(arg, "fog") {
                    w = Some(WeatherKind::Fog);
                } else if word_is(arg, "snow") {
                    w = Some(WeatherKind::Snow);
                }
                assert(w == weather_named(wv[1]));
            }
            match w {
                Some(kind) => {
                    let line = joined("OK: weather set to ", word_text(&ws[1]).as_str());
                    let ghost l = line@;
                    self.log_line(line);
                    e = ConsoleEffect::SetWeather(kind);
                    proof {
                        lines = seq![l];
                    }
                    assert(texts(self.log@) == log0.push("> "@ + cmd@) + lines);
                },
                None => {
                    self.log_line(String::from_str("ERR: usage weather <clear|rain|fog|snow>"));
                    e = ConsoleEffect::Nothing;
                    proof {
                        lines = seq!["ERR: usage weather <clear|rain|fog|snow>"@];
                    }
                    assert(texts(self.log@) == log0.push("> "@ + cmd@) + lines);
                },
            }
        } else if word_is(head, "gold") {
            let parsed = if ws.len() > 1 {
                parse_i32(&ws[1])
            } else {
                None
            };
            e = ConsoleEffect::Nothing;
            match parsed {
                Some(delta) => {
                    let sum: i64 = resources.gold as i64 + delta as i64;
                    let g: i32 = if sum > 2147483647 {
                        2147483647
                    } else if sum < -2147483648 {
                        -2147483648
                    } else {
                        sum as i32
                    };
                    resources.gold = g;
                    let mut line = String::from_str("OK: gold += ");
                    line.append(decimal_text(delta as i64).as_str());
                    line.append(" -> ");
                    line.append(decimal_text(g as i64).as_str());
                    let ghost l = line@;
                    self.log_line(line);
                    proof {
                        lines = seq![l];
                    }
                    assert(texts(self.log@) == log0.push("> "@ + cmd@) + lines);
                },
                None => {
                    self.log_line(String::from_str("ERR: usage gold <±N>"));
                    proof {
                        lines = seq!["ERR: usage gold <±N>"@];
                    }
                    assert(texts(self.log@) == log0.push("> "@ + cmd@) + lines);
                },
            }
        } else if word_is(head, "set") {
            e = ConsoleEffect::Nothing;
            if ws.len() < 2 {
                self.log_line(String::from_str("ERR: usage set gold <N>"));
                proof {
                    lines = seq!["ERR: usage set gold <N>"@];
                }
                assert(texts(self.log@) == log0.push("> "@ + cmd@) + lines);
            } else if word_is(&ws[1], "gold") {
                let parsed = if ws.len() > 2 {
                    parse_i32(&ws[2])
                } else {
                    None
                };
                match parsed {
                    Some(v) => {
                        resources.gold = v;
                        let line = joined("OK: gold = ", decimal_text(v as i64).as_str());
                        let ghost l = line@;
                        self.log_line(line);
                        proof {
                            lines = seq![l];
                        }
                        assert(texts(self.log@) == log0.push("> "@ + cmd@) + lines);
                    },
                    None => {
                        self.log_line(String::from_str("ERR: usage set gold <N>"));
                        proof {
                            lines = seq!["ERR: usage set gold <N>"@];
                        }
                        assert(texts(self.log@) == log0.push("> "@ + cmd@) + lines);
                    },
                }
            } else {
                self.log_line(String::from_str("ERR: unknown 'set' target"));
                proof {
                    lines = seq!["ERR: unknown 'set' target"@];
                }
                assert(texts(self.log@) == log0.push("> "@ + cmd@) + lines);
            }
        } else if word_is(head, "time") {
            if ws.len() > 1 {
                let arg = &ws[1];
                let t = if word_is(arg, "day") {
                    TimeArg::Day
                } else if word_is(arg, "night") {
                    TimeArg::Night
                } else if word_is(arg, "dawn") {
                    TimeArg::Dawn
                } else if word_is(arg, "dusk") {
                    TimeArg::Dusk
                } else {
                    TimeArg::Fraction(word_text(&lowered(arg)))
                };
                e = ConsoleEffect::SetTime(t);
                proof {
                    lines = Seq::<Seq<char>>::empty();
                }
                assert(texts(self.log@) == log0.push("> "@ + cmd@) + lines);
            } else {
                self.log_line(String::from_str("ERR: usage time <day|night|dawn|dusk|0..1>"));
                e = ConsoleEffect::Nothing;
                proof {
                    lines = seq!["ERR: usage time <day|night|dawn|dusk|0..1>"@];
                }
                assert(texts(self.log@) == log0.push("> "@ + cmd@) + lines);
            }
        } else if word_is(head, "biome") {
            if ws.len() > 1 && word_is(&ws[1], "overlay") {
                *biome_overlay_debug = !*biome_overlay_debug;
                let line = joined("OK: biome overlay ", if *biome_overlay_debug { "ON" } else { "OFF" });
                let ghost l = line@;
                self.log_line(line);
                e = ConsoleEffect::Nothing;
                proof {
                    lines = seq![l];
                }
                assert(texts(self.log@) == log0.push("> "@ + cmd@) + lines);
            } else if ws.len() > 2 {
                e = ConsoleEffect::SetBiomeThresholds(word_text(&ws[1]), word_text(&ws[2]));
                proof {
                    lines = Seq::<Seq<char>>::empty();
                }
                assert(texts(self.log@) == log0.push("> "@ + cmd@) + lines);
            } else {
                self.log_line(String::from_str("ERR: usage biome <swamp_thr rocky_thr|overlay>"));
                e = ConsoleEffect::Nothing;
                proof {
                    lines = seq!["ERR: usage biome <swamp_thr rocky_thr|overlay>"@];
                }
                assert(texts(self.log@) == log0.push("> "@ + cmd@) + lines);
            }
        } else if word_is(head, "biome_overlay") || word_is(head, "biomeoverlay") || word_is(head, "biome-overlay") {
            *biome_overlay_debug = !*biome_overlay_debug;
            let line = joined("OK: biome overlay ", if *biome_overlay_debug { "ON" } else { "OFF" });
            let ghost l = line@;
            self.log_line(line);
            e = ConsoleEffect::Nothing;
            proof {
                lines = seq![l];
            }
            assert(texts(self.log@) == log0.push("> "@ + cmd@) + lines);
        } else {
            self.log_line(String::from_str("ERR: unknown command. Type 'help'"));
            e = ConsoleEffect::Nothing;
            proof {
                lines = seq!["ERR: unknown command. Type 'help'"@];
            }
            assert(texts(self.log@) == log0.push("> "@ + cmd@) + lines);
        }
        proof {
            let st2 = console_state(resources.gold, *biome_overlay_debug, *biome_debug_mode, *show_deposits);
            assert(answer(wv, st, lines, st2, e));
        }
        e
    }
}

} // verus!
