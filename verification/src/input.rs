//! Keys, and key bindings resolved from their names in the configuration.

use vstd::prelude::*;
use crate::config::InputConfig;

verus! {

/// A key on the keyboard, as the game tells keys apart.
#[derive(Clone, Copy, Debug, PartialEq, Eq, Structural, Hash)]
pub enum Key {
    KeyA,
    KeyB,
    KeyC,
    KeyD,
    KeyE,
    KeyF,
    KeyG,
    KeyH,
    KeyI,
    KeyJ,
    KeyK,
    KeyL,
    KeyM,
    KeyN,
    KeyO,
    KeyP,
    KeyQ,
    KeyR,
    KeyS,
    KeyT,
    KeyU,
    KeyV,
    KeyW,
    KeyX,
    KeyY,
    KeyZ,
    Digit0,
    Digit1,
    Digit2,
    Digit3,
    Digit4,
    Digit5,
    Digit6,
    Digit7,
    Digit8,
    Digit9,
    Space,
    Enter,
    Escape,
    Backspace,
    Tab,
    Slash,
    Backslash,
    Minus,
    Equal,
    Comma,
    Period,
    ArrowUp,
    ArrowDown,
    ArrowLeft,
    ArrowRight,
    F5,
    F9,
    /// Any key the game does not use.
    Other,
}

/// The Unicode upper-case form of a text.
pub uninterp spec fn uppercased(s: Seq<char>) -> Seq<char>;

/// `str::to_uppercase`: the text in upper case, as Unicode defines it.
#[verifier::external_body]
fn to_upper(s: &str) -> (r: String)
    ensures
        r@ == uppercased(s@),
{
    s.to_uppercase()
}

/// Whether two texts are the same characters.
pub fn same_text(a: &str, b: &str) -> (r: bool)
    ensures
        r == (a@ == b@),
{
    let n = a.unicode_len();
    if n != b.unicode_len() {
        return false;
    }
    let mut i: usize = 0;
    while i < n
        invariant
            i <= n,
            n == a@.len(),
            n == b@.len(),
            forall|k: int| 0 <= k < i ==> a@[k] == b@[k],
        decreases n - i,
    {
        if a.get_char(i) != b.get_char(i) {
            return false;
        }
        i += 1;
    }
    assert(a@ =~= b@);
    true
}

/// The key bound by an upper-case key name; unknown names bind Escape.
pub open spec fn key_for_name(u: Seq<char>) -> Key {
    if u == "W"@ {
        Key::KeyW
    } else if u == "A"@ {
        Key::KeyA
    } else if u == "S"@ {
        Key::KeyS
    } else if u == "D"@ {
        Key::KeyD
    } else if u == "Q"@ {
        Key::KeyQ
    } else if u == "E"@ {
        Key::KeyE
    } else if u == "SPACE"@ {
        Key::Space
    } else if u == "DIGIT1"@ || u == "1"@ {
        Key::Digit1
    } else if u == "DIGIT2"@ || u == "2"@ {
        Key::Digit2
    } else if u == "DIGIT3"@ || u == "3"@ {
        Key::Digit3
    } else if u == "DIGIT4"@ || u == "4"@ {
        Key::Digit4
    } else if u == "Z"@ {
        Key::KeyZ
    } else if u == "X"@ {
        Key::KeyX
    } else if u == "R"@ {
        Key::KeyR
    } else if u == "T"@ {
        Key::KeyT
    } else if u == "N"@ {
        Key::KeyN
    } else if u == "F5"@ {
        Key::F5
    } else if u == "F9"@ {
        Key::F9
    } else {
        Key::Escape
    }
}

/// The key a binding names, ignoring case.
pub fn code_from_str(s: &str) -> (k: Key)
    ensures
        k == key_for_name(uppercased(s@)),
{
    let up = to_upper(s);
    let u = up.as_str();
    if same_text(u, "W") {
        Key::KeyW
    } else if same_text(u, "A") {
        Key::KeyA
    } else if same_text(u, "S") {
        Key::KeyS
    } else if same_text(u, "D") {
        Key::KeyD
    } else if same_text(u, "Q") {
        Key::KeyQ
    } else if same_text(u, "E") {
        Key::KeyE
    } else if same_text(u, "SPACE") {
        Key::Space
    } else if same_text(u, "DIGIT1") || same_text(u, "1") {
        Key::Digit1
    } else if same_text(u, "DIGIT2") || same_text(u, "2") {
        Key::Digit2
    } else if same_text(u, "DIGIT3") || same_text(u, "3") {
        Key::Digit3
    } else if same_text(u, "DIGIT4") || same_text(u, "4") {
        Key::Digit4
    } else if same_text(u, "Z") {
        Key::KeyZ
    } else if same_text(u, "X") {
        Key::KeyX
    } else if same_text(u, "R") {
        Key::KeyR
    } else if same_text(u, "T") {
        Key::KeyT
    } else if same_text(u, "N") {
        Key::KeyN
    } else if same_text(u, "F5") {
        Key::F5
    } else if same_text(u, "F9") {
        Key::F9
    } else {
        Key::Escape
    }
}

/// The key bindings in force.
#[derive(Clone, Copy, Debug, PartialEq, Eq, Structural)]
pub struct ResolvedInput {
    pub move_up: Key,
    pub move_down: Key,
    pub move_left: Key,
    pub move_right: Key,
    pub zoom_in: Key,
    pub zoom_out: Key,
    pub toggle_pause: Key,
    pub speed_0_5x: Key,
    pub speed_1x: Key,
    pub speed_2x: Key,
    pub speed_3x: Key,
    pub build_lumberjack: Key,
    pub build_house: Key,
    pub toggle_road_mode: Key,
    pub reset_new_seed: Key,
    pub reset_same_seed: Key,
    pub save_game: Key,
    pub load_game: Key,
    pub tax_up: Key,
    pub tax_down: Key,
}

/// The key a binding of the configuration names.
pub open spec fn bound(name: String) -> Key {
    key_for_name(uppercased(name@))
}

impl ResolvedInput {
    /// Resolve every binding of the configuration.
    pub fn from(cfg: &InputConfig) -> (r: Self)
        ensures
            r.move_up == bound(cfg.move_up),
            r.move_down == bound(cfg.move_down),
            r.move_left == bound(cfg.move_left),
            r.move_right == bound(cfg.move_right),
            r.zoom_in == bound(cfg.zoom_in),
            r.zoom_out == bound(cfg.zoom_out),
            r.toggle_pause == bound(cfg.toggle_pause),
            r.speed_0_5x == bound(cfg.speed_0_5x),
            r.speed_1x == bound(cfg.speed_1x),
            r.speed_2x == bound(cfg.speed_2x),
            r.speed_3x == bound(cfg.speed_3x),
            r.build_lumberjack == bound(cfg.build_lumberjack),
            r.build_house == bound(cfg.build_house),
            r.toggle_road_mode == bound(cfg.toggle_road_mode),
            r.reset_new_seed == bound(cfg.reset_new_seed),
            r.reset_same_seed == bound(cfg.reset_same_seed),
            r.save_game == bound(cfg.save_game),
            r.load_game == bound(cfg.load_game),
            r.tax_up == bound(cfg.tax_up),
            r.tax_down == bound(cfg.tax_down),
    {
        ResolvedInput {
            move_up: code_from_str(cfg.move_up.as_str()),
            move_down: code_from_str(cfg.move_down.as_str()),
            move_left: code_from_str(cfg.move_left.as_str()),
            move_right: code_from_str(cfg.move_right.as_str()),
            zoom_in: code_from_str(cfg.zoom_in.as_str()),
            zoom_out: code_from_str(cfg.zoom_out.as_str()),
            toggle_pause: code_from_str(cfg.toggle_pause.as_str()),
            speed_0_5x: code_from_str(cfg.speed_0_5x.as_str()),
            speed_1x: code_from_str(cfg.speed_1x.as_str()),
            speed_2x: code_from_str(cfg.speed_2x.as_str()),
            speed_3x: code_from_str(cfg.speed_3x.as_str()),
            build_lumberjack: code_from_str(cfg.build_lumberjack.as_str()),
            build_house: code_from_str(cfg.build_house.as_str()),
            toggle_road_mode: code_from_str(cfg.toggle_road_mode.as_str()),
            reset_new_seed: code_from_str(cfg.reset_new_seed.as_str()),
            reset_same_seed: code_from_str(cfg.reset_same_seed.as_str()),
            save_game: code_from_str(cfg.save_game.as_str()),
            load_game: code_from_str(cfg.load_game.as_str()),
            tax_up: code_from_str(cfg.tax_up.as_str()),
            tax_down: code_from_str(cfg.tax_down.as_str()),
        }
    }
}

} // verus!
